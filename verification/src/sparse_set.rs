use vstd::prelude::*;
use vstd::std_specs::iter::IteratorSpec;
use crate::iter::{KeyValues, Keys, Values, ValuesMut};
use crate::laws;
use crate::model::SparseSetModel;
use crate::sparse_entry::{SparseEntry, MAX_EPOCH, MAX_SPARSE_INDEX};
use crate::sparse_key::SparseKey;
use crate::storage::SparseArrayStorage;

verus! {

/// A container based on a sparse set, that stores a set of items and provides a way to
/// efficiently access them by a generated key.
///
/// It works similarly to an array, except that keys stay stable even after removals, and that
/// insertions and removals have a slight overhead. It has a higher memory consumption, since it
/// stores additional data for each element.
///
/// Good for cache efficiency. Doesn't require any hashing. Can't be serialized.
///
/// Insertions are O(1) amortized. Removals are O(1) if the order of elements can be changed,
/// O(n) if the order must be preserved. Accessing elements is O(1).
///
/// The extra memory consumption for each value is `4 * size_of::<usize>()` bytes on top of the
/// size of the value. It also grows by `2 * size_of::<usize>()` bytes for each slot from which
/// as many values have been removed as there are values of `usize`.
///
/// Zero-sized types are not supported.
///
/// The contracts of the methods speak of a set as a `SparseSetModel`, its view. A call from code
/// that is not verified panics where the set cannot be created for the type, where a key names a
/// slot that the set does not have, and where elements are to be swapped that are not there.
pub struct SparseSet<T> {
    // the values, their keys and the slots
    storage: SparseArrayStorage<T>,
    // the first slot in the list of free slots
    next_free_sparse_entry: usize,
    // the list of free slots, its first slot last
    free_list: Ghost<Seq<nat>>,
}

impl<T> View for SparseSet<T> {
    type V = SparseSetModel<T>;

    closed spec fn view(&self) -> SparseSetModel<T> {
        SparseSetModel {
            entries: Seq::new(
                self.storage.dense_keys@.len(),
                |i: int| (self.storage.dense_keys@[i], self.storage.dense_values@[i]),
            ),
            removals: Seq::new(
                self.storage.sparse().len(),
                |s: int| self.storage.sparse()[s].removals(),
            ),
            free: self.free_list@,
        }
    }
}

/// What the list of free slots starts with when it has the first `len` of the given slots.
spec fn head_of(free: Seq<nat>, len: int) -> nat {
    if len == 0 {
        MAX_SPARSE_INDEX as nat
    } else {
        free[len - 1]
    }
}

impl<T> SparseSet<T> {
    /// The invariant of the representation.
    pub closed spec fn wf(self) -> bool {
        &&& self.linked()
        &&& self@.valid()
    }

    /// The arrays refer to each other as they should.
    spec fn linked(self) -> bool {
        &&& self.storage.wf()
        &&& self.dense_to_sparse()
        &&& self.sparse_to_dense()
        &&& self.free_slots_linked()
    }

    /// The slot of each value knows where the value is.
    spec fn dense_to_sparse(self) -> bool {
        forall|i: int|
            0 <= i < self.storage.dense_keys@.len() ==> {
                let key = #[trigger] self.storage.dense_keys@[i];
                &&& key.sparse_index < self.storage.sparse().len()
                &&& self.storage.sparse()[key.sparse_index as int].alive_at(i, key.epoch)
            }
    }

    /// Each alive slot is the slot of a value.
    spec fn sparse_to_dense(self) -> bool {
        forall|s: int|
            0 <= s < self.storage.sparse().len() && (#[trigger] self.storage.sparse()[s]).alive()
                ==> {
                let i = self.storage.sparse()[s].position();
                &&& i < self.storage.dense_keys@.len()
                &&& self.storage.dense_keys@[i].sparse_index == s
            }
    }

    /// The free slots form a list.
    spec fn free_slots_linked(self) -> bool {
        &&& self.next_free_sparse_entry == head_of(self.free_list@, self.free_list@.len() as int)
        &&& forall|j: int|
            0 <= j < self.free_list@.len() ==> {
                let slot = #[trigger] self.free_list@[j];
                &&& slot < self.storage.sparse().len()
                &&& !self.storage.sparse()[slot as int].alive()
                &&& self.storage.sparse()[slot as int].link == head_of(self.free_list@, j)
            }
    }

    /// A set that satisfies the invariant of its representation is a valid set.
    pub proof fn lemma_wf_is_valid(&self)
        requires
            self.wf(),
        ensures
            self@.valid(),
    {
    }

    /// The slot of a key tells whether the key is in the set and where its value is.
    proof fn lemma_find(&self, key: SparseKey)
        requires
            self.wf(),
            self@.has_slot(key),
        ensures
            ({
                let entry = self.storage.sparse()[key.sparse_index as int];
                &&& self@.contains(key) <==> entry.alive() && entry.epoch == key.epoch
                &&& self@.contains(key) ==> entry.position() == self@.position(key)
                &&& self@.contains(key) ==> 0 <= entry.position() < self@.entries.len()
            }),
    {
        let entry = self.storage.sparse()[key.sparse_index as int];
        if entry.alive() && entry.epoch == key.epoch {
            let i = entry.position();
            assert(self.storage.dense_keys@[i].sparse_index == key.sparse_index);
            assert(self@.entries[i].0 == key);
            laws::lemma_position(self@, i);
        }
        if self@.contains(key) {
            let i = self@.position(key);
            assert(self@.entries[i].0 == key);
            assert(self.storage.dense_keys@[i] == key);
        }
    }

    /// Whether the other set is the same but for the values.
    spec fn differs_in_values(self, other: Self) -> bool {
        &&& other.storage.dense_values@.len() == self.storage.dense_values@.len()
        &&& other.storage.dense_keys == self.storage.dense_keys
        &&& other.storage.sparse_links == self.storage.sparse_links
        &&& other.storage.sparse_epochs == self.storage.sparse_epochs
        &&& other.next_free_sparse_entry == self.next_free_sparse_entry
        &&& other.free_list == self.free_list
    }

    /// The invariant does not depend on the values.
    proof fn lemma_wf_with_other_values(&self)
        requires
            self.wf(),
        ensures
            forall|other: Self| self.differs_in_values(other) ==> #[trigger] other.wf(),
    {
        assert forall|other: Self| self.differs_in_values(other) implies #[trigger] other.wf() by {
            assert(other@ =~= self@.with_values(other@.values()));
            laws::law_with_values_keeps_valid(self@, other@.values());
        }
    }

    /// The set after a value was added.
    proof fn lemma_pushed(self, before: Self, value: T)
        requires
            before.linked(),
            before@.free.no_duplicates(),
            self.storage.wf(),
            self.storage.dense_values@ == before.storage.dense_values@.push(value),
            self.storage.dense_keys@ == before.storage.dense_keys@.push(before@.next_key()),
            self.storage.sparse().len() == before@.pushed(value).removals.len(),
            ({
                let key = before@.next_key();
                &&& before@.free.len() == 0 ==> key.sparse_index == before.storage.sparse().len()
                &&& before@.free.len() > 0 ==> key.sparse_index == before@.free.last()
                    && before@.removals[key.sparse_index as int] == key.epoch
                &&& self.storage.sparse()[key.sparse_index as int].alive_at(
                    before.storage.dense_keys@.len() as int,
                    key.epoch,
                )
                &&& forall|s: int|
                    0 <= s < before.storage.sparse().len() && s != key.sparse_index
                        ==> #[trigger] self.storage.sparse()[s] == before.storage.sparse()[s]
            }),
            self.free_list@ == before@.pushed(value).free,
            self.next_free_sparse_entry == if before@.free.len() == 0 {
                before.next_free_sparse_entry
            } else {
                before.storage.sparse()[before@.free.last() as int].link
            },
        ensures
            self.linked(),
            self@ == before@.pushed(value),
    {
        let free = before.free_list@;
        let slot = before@.next_key().sparse_index as int;
        if free.len() > 0 {
            assert(free[free.len() - 1] == slot);
            assert(!before.storage.sparse()[slot].alive());
        }
        assert(self.dense_to_sparse()) by {
            assert(before.dense_to_sparse());
        }
        assert(self.sparse_to_dense()) by {
            assert forall|s: int|
                0 <= s < self.storage.sparse().len() && (
                #[trigger] self.storage.sparse()[s]).alive() implies {
                let i = self.storage.sparse()[s].position();
                &&& i < self.storage.dense_keys@.len()
                &&& self.storage.dense_keys@[i].sparse_index == s
            } by {
                if s != slot {
                    assert(before.storage.sparse()[s].alive());
                }
            }
        }
        assert(self.free_slots_linked()) by {
            assert forall|j: int| 0 <= j < self.free_list@.len() implies {
                let s = #[trigger] self.free_list@[j];
                &&& s < self.storage.sparse().len()
                &&& !self.storage.sparse()[s as int].alive()
                &&& self.storage.sparse()[s as int].link == head_of(self.free_list@, j)
            } by {
                assert(self.free_list@[j] == free[j]);
            }
        }
        assert(self@ =~= before@.pushed(value));
    }

    /// Whether the slot of the key was made free after the state `before` of the set, and
    /// nothing else happened to the list of free slots.
    spec fn freed_slot(self, before: Self, key: SparseKey) -> bool {
        let entry = self.storage.sparse()[key.sparse_index as int];
        &&& !entry.alive()
        &&& entry.removals() == key.epoch + 1
        &&& entry.link == before.next_free_sparse_entry
        &&& self.next_free_sparse_entry == if key.epoch < MAX_EPOCH {
            key.sparse_index
        } else {
            before.next_free_sparse_entry
        }
        &&& self.free_list@ == if key.epoch < MAX_EPOCH {
            before.free_list@.push(key.sparse_index as nat)
        } else {
            before.free_list@
        }
    }

    /// The set after a value was removed and the last one moved into its place.
    proof fn lemma_swap_removed(self, before: Self, key: SparseKey, p: int)
        requires
            before.linked(),
            0 <= p < before.storage.dense_keys@.len(),
            before.storage.dense_keys@[p] == key,
            self.storage.wf(),
            self.freed_slot(before, key),
            self.storage.dense_values@ == before.storage.dense_values@.update(
                p,
                before.storage.dense_values@.last(),
            ).drop_last(),
            self.storage.dense_keys@ == before.storage.dense_keys@.update(
                p,
                before.storage.dense_keys@.last(),
            ).drop_last(),
            self.storage.sparse().len() == before.storage.sparse().len(),
            forall|s: int|
                0 <= s < before.storage.sparse().len() && s != key.sparse_index ==> {
                    let then = before.storage.sparse()[s];
                    let now = #[trigger] self.storage.sparse()[s];
                    if s == before.storage.dense_keys@.last().sparse_index {
                        now.alive_at(p, then.epoch)
                    } else {
                        now == then
                    }
                },
        ensures
            self.linked(),
            self@ == before@.freed(
                key,
                before@.entries.update(p, before@.entries.last()).drop_last(),
            ),
    {
        let last = before.storage.dense_keys@.len() - 1;
        assert(before.storage.dense_keys@[last] == before.storage.dense_keys@.last());
        assert(self.dense_to_sparse()) by {
            assert forall|i: int| 0 <= i < self.storage.dense_keys@.len() implies {
                let k = #[trigger] self.storage.dense_keys@[i];
                &&& k.sparse_index < self.storage.sparse().len()
                &&& self.storage.sparse()[k.sparse_index as int].alive_at(i, k.epoch)
            } by {
                let q = if i == p { last } else { i };
                assert(self.storage.dense_keys@[i] == before.storage.dense_keys@[q]);
            }
        }
        assert(self.sparse_to_dense()) by {
            assert forall|s: int|
                0 <= s < self.storage.sparse().len() && (
                #[trigger] self.storage.sparse()[s]).alive() implies {
                let i = self.storage.sparse()[s].position();
                &&& i < self.storage.dense_keys@.len()
                &&& self.storage.dense_keys@[i].sparse_index == s
            } by {
                assert(s != key.sparse_index);
                assert(before.storage.sparse()[s].alive());
            }
        }
        assert(self.free_slots_linked());
        assert(self@ =~= before@.freed(
            key,
            before@.entries.update(p, before@.entries.last()).drop_last(),
        ));
    }

    /// The set after a value was removed and the later ones moved down.
    proof fn lemma_removed(self, before: Self, key: SparseKey, p: int)
        requires
            before.linked(),
            0 <= p < before.storage.dense_keys@.len(),
            before.storage.dense_keys@[p] == key,
            self.storage.wf(),
            self.freed_slot(before, key),
            self.storage.dense_values@ == before.storage.dense_values@.remove(p),
            self.storage.dense_keys@ == before.storage.dense_keys@.remove(p),
            self.storage.sparse().len() == before.storage.sparse().len(),
            forall|s: int|
                0 <= s < before.storage.sparse().len() && s != key.sparse_index ==> {
                    let then = before.storage.sparse()[s];
                    let now = #[trigger] self.storage.sparse()[s];
                    if then.alive() && then.position() > p {
                        now.alive_at(then.position() - 1, then.epoch)
                    } else {
                        now == then
                    }
                },
        ensures
            self.linked(),
            self@ == before@.freed(key, before@.entries.remove(p)),
    {
        assert(self.dense_to_sparse()) by {
            assert forall|i: int| 0 <= i < self.storage.dense_keys@.len() implies {
                let k = #[trigger] self.storage.dense_keys@[i];
                &&& k.sparse_index < self.storage.sparse().len()
                &&& self.storage.sparse()[k.sparse_index as int].alive_at(i, k.epoch)
            } by {
                let q = if i < p { i } else { i + 1 };
                assert(self.storage.dense_keys@[i] == before.storage.dense_keys@[q]);
            }
        }
        assert(self.sparse_to_dense()) by {
            assert forall|s: int|
                0 <= s < self.storage.sparse().len() && (
                #[trigger] self.storage.sparse()[s]).alive() implies {
                let i = self.storage.sparse()[s].position();
                &&& i < self.storage.dense_keys@.len()
                &&& self.storage.dense_keys@[i].sparse_index == s
            } by {
                assert(s != key.sparse_index);
                assert(before.storage.sparse()[s].alive());
            }
        }
        assert(self.free_slots_linked());
        assert(self@ =~= before@.freed(key, before@.entries.remove(p)));
    }

    /// Creates a new set. Does not allocate.
    ///
    /// The type `T` must not be zero-sized.
    pub fn new() -> (set: Self)
        requires
            vstd::layout::size_of::<T>() > 0,
        ensures
            set.wf(),
            set@ == SparseSetModel::<T>::empty(),
    {
        vstd::pervasive::runtime_assert(core::mem::size_of::<T>() > 0);
        let set = SparseSet {
            storage: SparseArrayStorage::new(),
            next_free_sparse_entry: MAX_SPARSE_INDEX,
            free_list: Ghost(Seq::empty()),
        };
        assert(set@ =~= SparseSetModel::<T>::empty());
        set
    }

    /// Creates a new set with allocated memory for the given number of elements.
    ///
    /// The type `T` must not be zero-sized, and that many values, and that many keys of two words
    /// each, must not take more bytes than an allocation can have.
    ///
    /// # Panics
    ///
    /// Panics if the memory allocation fails.
    pub fn with_capacity(capacity: usize) -> (set: Self)
        requires
            vstd::layout::size_of::<T>() > 0,
            capacity * vstd::layout::size_of::<T>() <= isize::MAX,
            capacity * (2 * vstd::layout::size_of::<usize>()) <= isize::MAX,
        ensures
            set.wf(),
            set@ == SparseSetModel::<T>::empty(),
    {
        vstd::pervasive::runtime_assert(core::mem::size_of::<T>() > 0);
        let set = SparseSet {
            storage: SparseArrayStorage::with_capacity(capacity),
            next_free_sparse_entry: MAX_SPARSE_INDEX,
            free_list: Ghost(Seq::empty()),
        };
        assert(set@ =~= SparseSetModel::<T>::empty());
        set
    }

    /// Inserts a new value into the set and returns a key that can be used to access it.
    ///
    /// This can heap-allocate (if the internal arrays need to grow) but it won't invalidate any
    /// existing keys. If some values were removed before, it will reclaim the previously freed
    /// space.
    ///
    /// O(1) amortized time complexity.
    ///
    /// # Panics
    ///
    /// Panics if a memory allocation fails.
    pub fn push(&mut self, value: T) -> (key: SparseKey)
        requires
            old(self).wf(),
        ensures
            final(self).wf(),
            key == old(self)@.next_key(),
            final(self)@ == old(self)@.pushed(value),
            final(self)@.entries == old(self)@.entries.push((key, value)),
            !old(self)@.issued(key),
            forall|k: SparseKey| #[trigger]
                final(self)@.lookup(k) == if k == key {
                    Some(value)
                } else {
                    old(self)@.lookup(k)
                },
    {
        let ghost before = *self;
        proof {
            laws::law_size_within_slots(self@);
            laws::law_push_key_is_new(self@);
        }
        // if there are free slots, use one of them
        let key = if self.next_free_sparse_entry != MAX_SPARSE_INDEX {
            let new_sparse_index = self.next_free_sparse_entry;
            assert(self@.free[self@.free.len() - 1] == new_sparse_index);
            let free_sparse_entry = self.storage.get_sparse(new_sparse_index);
            self.next_free_sparse_entry = free_sparse_entry.next_free();
            self.free_list = Ghost(before.free_list@.drop_last());

            let key = SparseKey {
                sparse_index: new_sparse_index,
                epoch: free_sparse_entry.next_epoch(),
            };

            self.storage.add_with_existing_sparse_item(key, value);

            key
        } else {
            // add a slot
            self.storage.add_with_new_sparse_item(value)
        };
        proof {
            self.lemma_pushed(before, value);
            laws::law_push_keeps_valid(before@, value);
            assert forall|k: SparseKey| #[trigger]
                before@.pushed(value).lookup(k) == if k == key {
                    Some(value)
                } else {
                    before@.lookup(k)
                } by {
                laws::law_push_lookup(before@, value, k);
            }
        }
        key
    }

    /// Removes an element from the set using the key, moving the last element into its place.
    /// Returns the removed value if it was present in the set.
    ///
    /// The key must be from this set.
    ///
    /// O(1) time complexity, however changes the order of elements.
    pub fn swap_remove(&mut self, key: SparseKey) -> (value: Option<T>)
        requires
            old(self).wf(),
            old(self)@.has_slot(key),
        ensures
            final(self).wf(),
            value == old(self)@.lookup(key),
            final(self)@ == old(self)@.swap_removed(key),
            forall|k: SparseKey| #[trigger]
                final(self)@.lookup(k) == if k == key {
                    None
                } else {
                    old(self)@.lookup(k)
                },
    {
        // a key of another set can name a slot that this set does not have
        vstd::pervasive::runtime_assert(key.sparse_index < self.storage.sparse_len());

        let ghost before = *self;
        proof {
            self.lemma_find(key);
            assert forall|k: SparseKey| #[trigger]
                self@.swap_removed(key).lookup(k) == if k == key {
                    None
                } else {
                    self@.lookup(k)
                } by {
                laws::law_swap_remove_lookup(self@, key, k);
            }
        }
        let sparse_entry = self.storage.get_sparse(key.sparse_index);
        if sparse_entry.is_alive() && sparse_entry.epoch() == key.epoch {
            proof {
                laws::law_size_within_slots(self@);
            }
            let last = self.storage.dense_keys.len() - 1;
            let swapped_sparse_index = self.storage.dense_keys[last].sparse_index;
            let swapped_entry = self.storage.get_sparse(swapped_sparse_index);
            self.storage.set_sparse(
                swapped_sparse_index,
                swapped_entry.with_dense_index(sparse_entry.dense_index()),
            );

            let removed_value = self.storage.swap_remove_dense(sparse_entry.dense_index());

            self.mark_as_free(key, sparse_entry);
            proof {
                laws::law_swap_remove_keeps_valid(before@, key);
                self.lemma_swap_removed(before, key, before@.position(key));
            }
            Some(removed_value)
        } else {
            // the element was already removed (either there's nothing, or a newer element)
            None
        }
    }

    /// Removes an element from the set using the key, keeping the order of elements.
    /// Returns the removed value if it was present in the set.
    ///
    /// The key must be from this set.
    ///
    /// O(n) time complexity, however doesn't change the order of elements.
    pub fn remove(&mut self, key: SparseKey) -> (value: Option<T>)
        requires
            old(self).wf(),
            old(self)@.has_slot(key),
        ensures
            final(self).wf(),
            value == old(self)@.lookup(key),
            final(self)@ == old(self)@.removed(key),
            forall|k: SparseKey| #[trigger]
                final(self)@.lookup(k) == if k == key {
                    None
                } else {
                    old(self)@.lookup(k)
                },
    {
        // a key of another set can name a slot that this set does not have
        vstd::pervasive::runtime_assert(key.sparse_index < self.storage.sparse_len());

        let ghost before = *self;
        proof {
            self.lemma_find(key);
            assert forall|k: SparseKey| #[trigger]
                self@.removed(key).lookup(k) == if k == key {
                    None
                } else {
                    self@.lookup(k)
                } by {
                laws::law_remove_lookup(self@, key, k);
            }
        }
        let sparse_entry = self.storage.get_sparse(key.sparse_index);
        if sparse_entry.is_alive() && sparse_entry.epoch() == key.epoch {
            proof {
                laws::law_size_within_slots(self@);
            }
            let position = sparse_entry.dense_index();
            let len = self.storage.dense_keys.len();
            for i in position + 1..len
                invariant
                    before.linked(),
                    before@.entries.len() <= MAX_SPARSE_INDEX,
                    len == before.storage.dense_keys@.len(),
                    position < len,
                    self.storage.wf(),
                    self.storage.dense_keys == before.storage.dense_keys,
                    self.storage.dense_values == before.storage.dense_values,
                    self.next_free_sparse_entry == before.next_free_sparse_entry,
                    self.free_list == before.free_list,
                    self.storage.sparse().len() == before.storage.sparse().len(),
                    forall|s: int|
                        0 <= s < before.storage.sparse().len() ==> {
                            let then = before.storage.sparse()[s];
                            let now = #[trigger] self.storage.sparse()[s];
                            if then.alive() && position < then.position() < i {
                                now.alive_at(then.position() - 1, then.epoch)
                            } else {
                                now == then
                            }
                        },
            {
                let sparse_index = self.storage.dense_keys[i].sparse_index;
                let moved_entry = self.storage.get_sparse(sparse_index);
                self.storage.set_sparse(
                    sparse_index,
                    moved_entry.with_dense_index(moved_entry.dense_index() - 1),
                );
            }

            let removed_value = self.storage.remove_dense(position);

            self.mark_as_free(key, sparse_entry);
            proof {
                laws::law_remove_keeps_valid(before@, key);
                self.lemma_removed(before, key, before@.position(key));
            }
            Some(removed_value)
        } else {
            // the element was already removed (either there's nothing, or a newer element)
            None
        }
    }

    /// Swaps two elements in the set using their keys. The keys keep their values.
    ///
    /// Both keys must be in the set.
    ///
    /// O(1) time complexity.
    pub fn swap(&mut self, key1: SparseKey, key2: SparseKey)
        requires
            old(self).wf(),
            old(self)@.lookup(key1) is Some,
            old(self)@.lookup(key2) is Some,
        ensures
            final(self).wf(),
            final(self)@ == old(self)@.swapped(key1, key2),
            forall|k: SparseKey| #[trigger] final(self)@.lookup(k) == old(self)@.lookup(k),
    {
        proof {
            laws::lemma_contains_has_slot(self@, key1);
            laws::lemma_contains_has_slot(self@, key2);
            self.lemma_find(key1);
            self.lemma_find(key2);
            laws::law_size_within_slots(self@);
            laws::law_swap_keeps_valid(self@, key1, key2);
            assert forall|k: SparseKey| #[trigger]
                self@.swapped(key1, key2).lookup(k) == self@.lookup(k) by {
                laws::law_swap_lookup(self@, key1, key2, k);
            }
        }
        vstd::pervasive::runtime_assert(self.contains(key1));
        vstd::pervasive::runtime_assert(self.contains(key2));

        let ghost before = *self;
        let sparse_entry1 = self.storage.get_sparse(key1.sparse_index);
        let sparse_entry2 = self.storage.get_sparse(key2.sparse_index);

        self.storage.swap_dense(sparse_entry1.dense_index(), sparse_entry2.dense_index());

        // swap the references in the slots
        self.storage.set_sparse(
            key1.sparse_index,
            SparseEntry::new_alive(sparse_entry2.dense_index(), sparse_entry1.epoch()),
        );
        self.storage.set_sparse(
            key2.sparse_index,
            SparseEntry::new_alive(sparse_entry1.dense_index(), sparse_entry2.epoch()),
        );
        proof {
            assert(self@ =~= before@.swapped(key1, key2));
            assert(self.dense_to_sparse());
            assert(self.sparse_to_dense());
            assert(self.free_slots_linked());
        }
    }

    /// Returns a reference to the value stored at the given key.
    /// If the key is not in the set, returns None.
    ///
    /// The key must be from this set.
    ///
    /// O(1) time complexity.
    pub fn get(&self, key: SparseKey) -> (value: Option<&T>)
        requires
            self.wf(),
            self@.has_slot(key),
        ensures
            value is Some <==> self@.contains(key),
            value matches Some(value) ==> self@.lookup(key) == Some(*value),
    {
        // a key of another set can name a slot that this set does not have
        vstd::pervasive::runtime_assert(key.sparse_index < self.storage.sparse_len());

        proof {
            self.lemma_find(key);
        }
        let sparse_entry = self.storage.get_sparse(key.sparse_index);
        if sparse_entry.is_alive() && sparse_entry.epoch() == key.epoch {
            Some(&self.storage.dense_values[sparse_entry.dense_index()])
        } else {
            // either there's no element, or there's a newer element in the slot
            None
        }
    }

    /// Returns a mutable reference to the value stored at the given key.
    /// If the key is not in the set, returns None.
    ///
    /// The key must be from this set.
    ///
    /// O(1) time complexity.
    pub fn get_mut(&mut self, key: SparseKey) -> (value: Option<&mut T>)
        requires
            old(self).wf(),
            old(self)@.has_slot(key),
        ensures
            final(self).wf(),
            value is Some <==> old(self)@.contains(key),
            match value {
                Some(value) => {
                    &&& old(self)@.lookup(key) == Some(*value)
                    &&& final(self)@ == old(self)@.updated(key, *final(value))
                    &&& final(self)@.entries.len() == old(self)@.entries.len()
                    &&& forall|i: int|
                        0 <= i < old(self)@.entries.len() ==> #[trigger] final(self)@.entries[i]
                            == (
                            old(self)@.entries[i].0,
                            if old(self)@.entries[i].0 == key {
                                *final(value)
                            } else {
                                old(self)@.entries[i].1
                            },
                        )
                    &&& forall|k: SparseKey| #[trigger]
                        final(self)@.lookup(k) == if k == key {
                            Some(*final(value))
                        } else {
                            old(self)@.lookup(k)
                        }
                },
                None => final(self)@ == old(self)@,
            },
    {
        // a key of another set can name a slot that this set does not have
        vstd::pervasive::runtime_assert(key.sparse_index < self.storage.sparse_len());

        proof {
            self.lemma_find(key);
            self.lemma_wf_with_other_values();
            assert forall|k: SparseKey, v: T| self@.contains(key) implies #[trigger] self@.updated(
                key,
                v,
            ).lookup(k) == if k == key {
                Some(v)
            } else {
                self@.lookup(k)
            } by {
                laws::law_update_lookup(self@, key, v, k);
            }
        }
        let sparse_entry = self.storage.get_sparse(key.sparse_index);
        if sparse_entry.is_alive() && sparse_entry.epoch() == key.epoch {
            Some(&mut self.storage.dense_values[sparse_entry.dense_index()])
        } else {
            // either there's no element, or there's a newer element in the slot
            None
        }
    }

    /// Returns true if the key points to an element in the set. A key of another set that names
    /// a slot that this set does not have points to none.
    ///
    /// O(1) time complexity.
    pub fn contains(&self, key: SparseKey) -> (contained: bool)
        requires
            self.wf(),
        ensures
            contained == self@.contains(key),
            contained == self@.lookup(key) is Some,
    {
        if key.sparse_index >= self.storage.sparse_len() {
            proof {
                if self@.contains(key) {
                    laws::lemma_contains_has_slot(self@, key);
                }
            }
            return false;
        }
        proof {
            self.lemma_find(key);
        }
        let sparse_entry = self.storage.get_sparse(key.sparse_index);
        sparse_entry.is_alive() && sparse_entry.epoch() == key.epoch
    }

    /// Returns the number of elements in the set.
    ///
    /// O(1) time complexity.
    pub fn size(&self) -> (size: usize)
        requires
            self.wf(),
        ensures
            size == self@.entries.len(),
    {
        self.storage.dense_values.len()
    }

    /// Returns true if the set is empty.
    ///
    /// O(1) time complexity.
    pub fn is_empty(&self) -> (empty: bool)
        requires
            self.wf(),
        ensures
            empty <==> self@.entries.len() == 0,
    {
        self.storage.dense_values.is_empty()
    }

    /// Returns an iterator over the values of the set.
    pub fn values(&self) -> (values: Values<'_, T>)
        requires
            self.wf(),
        ensures
            values.rest() == self@.values(),
            values.rest().len() == self@.entries.len(),
            forall|i: int|
                0 <= i < self@.entries.len() ==> #[trigger] values.rest()[i] == self@.entries[i].1,
            IteratorSpec::obeys_prophetic_iter_laws(&values),
            IteratorSpec::remaining(&values).len() == self@.entries.len(),
            forall|i: int|
                0 <= i < self@.entries.len() ==> *(#[trigger] IteratorSpec::remaining(&values)[i])
                    == self@.entries[i].1,
    {
        let values = Values { rest: self.storage.dense_values.as_slice() };
        assert(values.rest() =~= self@.values());
        values
    }

    /// Returns an iterator over the mutable values of the set.
    ///
    /// Once the iterator is gone, the keys have the values that were written through it. The
    /// invariant holds then if there are as many values as before, which a caller knows from the
    /// contracts of the iterator's methods.
    pub fn values_mut(&mut self) -> (values: ValuesMut<'_, T>)
        requires
            old(self).wf(),
        ensures
            values.rest() is Some,
            values.pending() == old(self)@.values(),
            (values.rest()->0)@.len() == old(self)@.entries.len(),
            forall|i: int|
                0 <= i < old(self)@.entries.len() ==> #[trigger] (values.rest()->0)@[i]
                    == old(self)@.entries[i].1,
            final(self)@.entries.len() == old(self)@.entries.len(),
            forall|i: int|
                0 <= i < old(self)@.entries.len() ==> #[trigger] final(self)@.entries[i] == (
                    old(self)@.entries[i].0,
                    final(values.rest()->0)@[i],
                ),
            final(self)@ == old(self)@.with_values(final(values.rest()->0)@),
            final(values.rest()->0)@.len() == old(self)@.entries.len() ==> final(self).wf(),
    {
        proof {
            self.lemma_wf_with_other_values();
        }
        ValuesMut { rest: Some(self.storage.dense_values.as_mut_slice()) }
    }

    /// Returns an iterator over the keys of the set.
    pub fn keys(&self) -> (keys: Keys<'_>)
        requires
            self.wf(),
        ensures
            keys.rest() == self@.keys(),
            keys.rest().len() == self@.entries.len(),
            forall|i: int|
                0 <= i < self@.entries.len() ==> #[trigger] keys.rest()[i] == self@.entries[i].0,
            IteratorSpec::obeys_prophetic_iter_laws(&keys),
            IteratorSpec::remaining(&keys).len() == self@.entries.len(),
            forall|i: int|
                0 <= i < self@.entries.len() ==> #[trigger] IteratorSpec::remaining(&keys)[i]
                    == self@.entries[i].0,
            forall|i: int|
                0 <= i < keys.rest().len() ==> self@.has_slot(#[trigger] keys.rest()[i])
                    && self@.lookup(keys.rest()[i]) == Some(self@.values()[i]),
    {
        let keys = Keys { rest: self.storage.dense_keys.as_slice() };
        proof {
            laws::law_iteration(self@);
            assert(keys.rest() =~= self@.keys());
        }
        keys
    }

    /// Returns an iterator over the key-value pairs of the set.
    ///
    /// Note that if you intend to iterate over key-values in time-critical code, it may be better
    /// to instead store the keys in the elements themselves to reduce CPU cache misses.
    pub fn key_values(&self) -> (pairs: KeyValues<'_, T>)
        requires
            self.wf(),
        ensures
            pairs.wf(),
            pairs.keys() == self@.keys(),
            pairs.values() == self@.values(),
            IteratorSpec::obeys_prophetic_iter_laws(&pairs),
            IteratorSpec::remaining(&pairs).len() == self@.entries.len(),
            forall|i: int|
                0 <= i < self@.entries.len() ==> (#[trigger] IteratorSpec::remaining(&pairs)[i]).0
                    == self@.entries[i].0 && *IteratorSpec::remaining(&pairs)[i].1
                    == self@.entries[i].1,
            pairs.keys().len() == self@.entries.len(),
            pairs.values().len() == self@.entries.len(),
            forall|i: int|
                0 <= i < self@.entries.len() ==> #[trigger] pairs.keys()[i] == self@.entries[i].0,
            forall|i: int|
                0 <= i < self@.entries.len() ==> #[trigger] pairs.values()[i]
                    == self@.entries[i].1,
            forall|i: int|
                0 <= i < pairs.keys().len() ==> self@.has_slot(#[trigger] pairs.keys()[i])
                    && self@.lookup(pairs.keys()[i]) == Some(pairs.values()[i]),
    {
        let pairs = KeyValues {
            keys: self.storage.dense_keys.as_slice(),
            values: self.storage.dense_values.as_slice(),
        };
        proof {
            laws::law_iteration(self@);
            assert(pairs.keys() =~= self@.keys());
            assert(pairs.values() =~= self@.values());
        }
        pairs
    }

    /// Makes the slot of a key free, and puts it into the list of free slots while it has
    /// epochs left.
    fn mark_as_free(&mut self, key: SparseKey, entry: SparseEntry)
        requires
            old(self).storage.wf(),
            key.sparse_index < old(self).storage.sparse().len(),
            old(self).next_free_sparse_entry <= MAX_SPARSE_INDEX,
            entry.epoch == key.epoch,
        ensures
            final(self).storage.wf(),
            final(self).storage.dense_values == old(self).storage.dense_values,
            final(self).storage.dense_keys == old(self).storage.dense_keys,
            final(self).storage.sparse().len() == old(self).storage.sparse().len(),
            forall|s: int|
                0 <= s < old(self).storage.sparse().len() && s != key.sparse_index
                    ==> #[trigger] final(self).storage.sparse()[s]
                    == old(self).storage.sparse()[s],
            final(self).freed_slot(*old(self), key),
    {
        self.storage.set_sparse(
            key.sparse_index,
            SparseEntry::new_free(
                self.next_free_sparse_entry,
                usize::wrapping_add(entry.epoch(), 1),
            ),
        );

        // as long as we have available epochs, we can reuse the slot
        if key.epoch < MAX_EPOCH {
            self.next_free_sparse_entry = key.sparse_index;
            self.free_list = Ghost(self.free_list@.push(key.sparse_index as nat));
        }
    }
}

impl<T: Clone> Clone for SparseSet<T> {
    /// Returns a set with the same keys, in the same order, and with clones of the values. The
    /// two sets hand out the same keys from then on.
    fn clone(&self) -> (set: Self)
        ensures
            self.wf() ==> set.wf(),
            self.wf() ==> set@.removals == self@.removals,
            self.wf() ==> set@.free == self@.free,
            self.wf() ==> set@.entries.len() == self@.entries.len(),
            self.wf() ==> forall|i: int|
                #![trigger self@.entries[i]]
                #![trigger set@.entries[i]]
                0 <= i < self@.entries.len() ==> set@.entries[i].0 == self@.entries[i].0
                    && cloned::<T>(self@.entries[i].1, set@.entries[i].1),
    {
        let set = SparseSet {
            storage: SparseArrayStorage {
                dense_values: self.storage.dense_values.clone(),
                dense_keys: self.storage.dense_keys.clone(),
                sparse_links: self.storage.sparse_links.clone(),
                sparse_epochs: self.storage.sparse_epochs.clone(),
            },
            next_free_sparse_entry: self.next_free_sparse_entry,
            free_list: Ghost(self.free_list@),
        };
        proof {
            assert(set.storage.dense_keys@ =~= self.storage.dense_keys@);
            assert(set.storage.sparse() =~= self.storage.sparse());
            if self.wf() {
                assert(set@ =~= self@.with_values(set@.values()));
                laws::law_with_values_keeps_valid(self@, set@.values());
            }
        }
        set
    }
}

} // verus!
