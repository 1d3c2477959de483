use vstd::prelude::*;

verus! {

/// The bound on slots and on positions of values: every slot number is below it. As the
/// successor of a free slot it stands for "no slot".
pub const MAX_SPARSE_INDEX: usize = usize::MAX / 2;

/// The last epoch of a slot. A slot whose value of this epoch is removed is not used again.
pub const MAX_EPOCH: usize = usize::MAX;

/// The state of one slot, in two words.
///
/// A slot is either alive or free. An alive slot has the position of its value and the epoch of
/// the key for that value. A free slot has a successor in the list of free slots and the epoch
/// of the next key for the slot. The first word holds a position in its upper half and a
/// successor in its lower half, so the half tells the two states apart.
#[derive(Clone, Copy)]
pub struct SparseEntry {
    pub link: usize,
    pub epoch: usize,
}

impl SparseEntry {
    pub open spec fn alive(self) -> bool {
        self.link > MAX_SPARSE_INDEX
    }

    /// The position of the value of an alive slot.
    pub open spec fn position(self) -> int {
        self.link - MAX_SPARSE_INDEX - 1
    }

    pub open spec fn alive_at(self, position: int, epoch: usize) -> bool {
        self.alive() && self.position() == position && self.epoch == epoch
    }

    pub open spec fn free_before(self, next_free: usize, next_epoch: usize) -> bool {
        !self.alive() && self.link == next_free && self.epoch == next_epoch
    }

    /// How many values have been removed from the slot. The epoch of a free slot is at least
    /// one, unless it has wrapped around.
    pub open spec fn removals(self) -> nat {
        if !self.alive() && self.epoch == 0 {
            MAX_EPOCH as nat + 1
        } else {
            self.epoch as nat
        }
    }

    pub fn new_alive(dense_index: usize, epoch: usize) -> (entry: Self)
        requires
            dense_index <= MAX_SPARSE_INDEX,
        ensures
            entry.alive_at(dense_index as int, epoch),
    {
        SparseEntry { link: MAX_SPARSE_INDEX + 1 + dense_index, epoch }
    }

    pub fn new_free(next_free: usize, next_epoch: usize) -> (entry: Self)
        requires
            next_free <= MAX_SPARSE_INDEX,
        ensures
            entry.free_before(next_free, next_epoch),
    {
        SparseEntry { link: next_free, epoch: next_epoch }
    }

    pub fn is_alive(self) -> (alive: bool)
        ensures
            alive == self.alive(),
    {
        self.link > MAX_SPARSE_INDEX
    }

    /// The position of the value.
    pub fn dense_index(self) -> (position: usize)
        requires
            self.alive(),
        ensures
            position == self.position(),
    {
        self.link - MAX_SPARSE_INDEX - 1
    }

    /// The epoch of the key for the value.
    pub fn epoch(self) -> (epoch: usize)
        ensures
            epoch == self.epoch,
    {
        self.epoch
    }

    /// The next slot in the list of free slots.
    pub fn next_free(self) -> (next_free: usize)
        requires
            !self.alive(),
        ensures
            next_free == self.link,
            next_free <= MAX_SPARSE_INDEX,
    {
        self.link
    }

    /// The epoch of the next key for the slot.
    pub fn next_epoch(self) -> (next_epoch: usize)
        requires
            !self.alive(),
        ensures
            next_epoch == self.epoch,
    {
        self.epoch
    }

    /// The entry with its value at another position.
    pub fn with_dense_index(self, dense_index: usize) -> (entry: Self)
        requires
            self.alive(),
            dense_index <= MAX_SPARSE_INDEX,
        ensures
            entry.alive_at(dense_index as int, self.epoch),
    {
        Self::new_alive(dense_index, self.epoch)
    }
}

} // verus!
