use vstd::prelude::*;

verus! {

/// A key that a `SparseSet` hands out for a stored value.
///
/// It names a slot of the set and the epoch of that slot, that is, how many values had been
/// removed from the slot when the key was handed out.
#[derive(Debug, Clone, Copy, PartialEq, Eq, Hash, Structural)]
pub struct SparseKey {
    pub(crate) sparse_index: usize,
    pub(crate) epoch: usize,
}

impl SparseKey {
    /// The slot that the key names.
    pub open(crate) spec fn slot(self) -> nat {
        self.sparse_index as nat
    }

    /// The epoch of the slot for which the key was handed out.
    pub open(crate) spec fn epoch(self) -> nat {
        self.epoch as nat
    }

    /// The key for the given slot and epoch.
    pub open(crate) spec fn at(slot: nat, epoch: nat) -> SparseKey {
        SparseKey { sparse_index: slot as usize, epoch: epoch as usize }
    }

    /// A key is its slot and its epoch.
    pub proof fn lemma_key_is_slot_and_epoch(self, other: SparseKey)
        ensures
            self == other <==> self.slot() == other.slot() && self.epoch() == other.epoch(),
            self.slot() <= usize::MAX,
            self.epoch() <= usize::MAX,
            SparseKey::at(self.slot(), self.epoch()) == self,
    {
    }

    /// The key for a slot and an epoch names that slot and that epoch.
    pub proof fn lemma_key_at(slot: nat, epoch: nat)
        requires
            slot <= usize::MAX,
            epoch <= usize::MAX,
        ensures
            SparseKey::at(slot, epoch).slot() == slot,
            SparseKey::at(slot, epoch).epoch() == epoch,
    {
    }
}

} // verus!
