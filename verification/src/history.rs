use vstd::prelude::*;
use crate::laws;
use crate::model::SparseSetModel;
use crate::sparse_entry::MAX_SPARSE_INDEX;
use crate::sparse_key::SparseKey;

verus! {

/// A change of a sparse set.
pub enum Operation<T> {
    Push(T),
    Remove(SparseKey),
    SwapRemove(SparseKey),
    Swap(SparseKey, SparseKey),
    Update(SparseKey, T),
    WithValues(Seq<T>),
}

impl<T> Operation<T> {
    /// Whether the operation is the removal of the value of the key.
    pub open spec fn removes(self, key: SparseKey) -> bool {
        self == Operation::<T>::Remove(key) || self == Operation::<T>::SwapRemove(key)
    }

    /// Whether the operation may give the key another value.
    pub open spec fn writes(self, key: SparseKey) -> bool {
        match self {
            Operation::Update(k, _) => k == key,
            Operation::WithValues(_) => true,
            _ => false,
        }
    }
}

impl<T> SparseSetModel<T> {
    /// Whether the operation can be done: there is room for a new slot where one is needed, the
    /// keys are such that the set may be asked for them, and every key gets a value.
    pub open spec fn allows(self, op: Operation<T>) -> bool {
        match op {
            Operation::Push(value) => self.pushed(value).removals.len() <= MAX_SPARSE_INDEX,
            Operation::Remove(key) => self.has_slot(key),
            Operation::SwapRemove(key) => self.has_slot(key),
            Operation::Swap(key1, key2) => self.contains(key1) && self.contains(key2),
            Operation::Update(key, _) => self.contains(key),
            Operation::WithValues(values) => values.len() == self.entries.len(),
        }
    }

    /// The set after the operation.
    pub open spec fn after(self, op: Operation<T>) -> Self {
        match op {
            Operation::Push(value) => self.pushed(value),
            Operation::Remove(key) => self.removed(key),
            Operation::SwapRemove(key) => self.swap_removed(key),
            Operation::Swap(key1, key2) => self.swapped(key1, key2),
            Operation::Update(key, value) => self.updated(key, value),
            Operation::WithValues(values) => self.with_values(values),
        }
    }

    /// The set after the operations, one after the other.
    pub open spec fn after_all(self, ops: Seq<Operation<T>>) -> Self
        decreases ops.len(),
    {
        if ops.len() == 0 {
            self
        } else {
            self.after_all(ops.drop_last()).after(ops.last())
        }
    }

    /// Whether the operations can be done, one after the other.
    pub open spec fn allows_all(self, ops: Seq<Operation<T>>) -> bool
        decreases ops.len(),
    {
        ops.len() == 0 || self.allows_all(ops.drop_last()) && self.after_all(
            ops.drop_last(),
        ).allows(ops.last())
    }
}

/// Every operation keeps a set valid.
pub proof fn law_operation_keeps_valid<T>(m: SparseSetModel<T>, op: Operation<T>)
    requires
        m.valid(),
        m.allows(op),
    ensures
        m.after(op).valid(),
{
    match op {
        Operation::Push(value) => laws::law_push_keeps_valid(m, value),
        Operation::Remove(key) => laws::law_remove_keeps_valid(m, key),
        Operation::SwapRemove(key) => laws::law_swap_remove_keeps_valid(m, key),
        Operation::Swap(key1, key2) => laws::law_swap_keeps_valid(m, key1, key2),
        Operation::Update(key, value) => laws::law_update_keeps_valid(m, key, value),
        Operation::WithValues(values) => laws::law_with_values_keeps_valid(m, values),
    }
}

/// A set stays valid whatever is done with it.
pub proof fn law_history_keeps_valid<T>(m: SparseSetModel<T>, ops: Seq<Operation<T>>)
    requires
        m.valid(),
        m.allows_all(ops),
    ensures
        m.after_all(ops).valid(),
    decreases ops.len(),
{
    if ops.len() > 0 {
        law_history_keeps_valid(m, ops.drop_last());
        law_operation_keeps_valid(m.after_all(ops.drop_last()), ops.last());
    }
}

/// A key finds after an operation what it found before, unless the operation removes or writes
/// its value or hands out the key.
proof fn lemma_operation_lookup<T>(m: SparseSetModel<T>, op: Operation<T>, key: SparseKey)
    requires
        m.valid(),
        m.allows(op),
    ensures
        op.removes(key) ==> !m.after(op).contains(key),
        !op.removes(key) && m.contains(key) ==> m.after(op).contains(key),
        m.after(op).contains(key) && !m.contains(key) ==> op is Push && key == m.next_key(),
        !op.removes(key) && !op.writes(key) && m.contains(key) ==> m.after(op).lookup(key)
            == m.lookup(key),
{
    match op {
        Operation::Push(value) => {
            laws::law_push_lookup(m, value, key);
            laws::law_push_key_is_new(m);
        },
        Operation::Remove(removed) => laws::law_remove_lookup(m, removed, key),
        Operation::SwapRemove(removed) => laws::law_swap_remove_lookup(m, removed, key),
        Operation::Swap(key1, key2) => laws::law_swap_lookup(m, key1, key2, key),
        Operation::Update(updated, value) => laws::law_update_lookup(m, updated, value, key),
        Operation::WithValues(values) => laws::law_with_values_lookup(m, values, key),
    }
}

/// No operation takes a slot away or sets its history back, and no operation makes a key that
/// was handed out one that was not. A key that was handed out and has lost its value does not
/// get one again.
pub proof fn law_operation_remembers_keys<T>(m: SparseSetModel<T>, op: Operation<T>, key: SparseKey)
    requires
        m.valid(),
        m.allows(op),
    ensures
        m.removals.len() <= m.after(op).removals.len(),
        m.has_slot(key) ==> m.after(op).has_slot(key),
        m.issued(key) ==> m.after(op).issued(key),
        m.issued(key) && !m.contains(key) ==> !m.after(op).contains(key),
{
    lemma_operation_lookup(m, op, key);
    laws::law_push_key_is_new(m);
    if m.contains(key) {
        laws::lemma_contains_has_slot(m, key);
    }
}

/// A key that was removed never finds a value again, whatever is done with the set.
pub proof fn law_removed_key_stays_removed<T>(
    m: SparseSetModel<T>,
    ops: Seq<Operation<T>>,
    key: SparseKey,
)
    requires
        m.valid(),
        m.allows_all(ops),
        m.issued(key),
        !m.contains(key),
    ensures
        m.after_all(ops).issued(key),
        m.after_all(ops).lookup(key) is None,
    decreases ops.len(),
{
    if ops.len() > 0 {
        let n = m.after_all(ops.drop_last());
        law_removed_key_stays_removed(m, ops.drop_last(), key);
        law_history_keeps_valid(m, ops.drop_last());
        law_operation_remembers_keys(n, ops.last(), key);
    }
}

/// Once the value of a key is removed, in either way, the key never finds a value again,
/// whatever is done with the set.
pub proof fn law_removal_is_final<T>(
    m: SparseSetModel<T>,
    removal: Operation<T>,
    ops: Seq<Operation<T>>,
    key: SparseKey,
)
    requires
        m.valid(),
        m.contains(key),
        removal.removes(key),
        m.after(removal).allows_all(ops),
    ensures
        m.after(removal).after_all(ops).lookup(key) is None,
{
    laws::lemma_contains_has_slot(m, key);
    law_operation_keeps_valid(m, removal);
    law_operation_remembers_keys(m, removal, key);
    lemma_operation_lookup(m, removal, key);
    law_removed_key_stays_removed(m.after(removal), ops, key);
}

/// A key keeps finding a value until that value is removed, and keeps finding the same value
/// until another one is written, whatever else is done with the set.
pub proof fn law_key_is_stable<T>(m: SparseSetModel<T>, ops: Seq<Operation<T>>, key: SparseKey)
    requires
        m.valid(),
        m.allows_all(ops),
        m.contains(key),
        forall|i: int| 0 <= i < ops.len() ==> !(#[trigger] ops[i]).removes(key),
    ensures
        m.after_all(ops).contains(key),
        (forall|i: int| 0 <= i < ops.len() ==> !(#[trigger] ops[i]).writes(key))
            ==> m.after_all(ops).lookup(key) == m.lookup(key),
    decreases ops.len(),
{
    if ops.len() > 0 {
        let first = ops.drop_last();
        assert forall|i: int| 0 <= i < first.len() implies !(#[trigger] first[i]).removes(key) by {
            assert(first[i] == ops[i]);
        }
        law_key_is_stable(m, first, key);
        law_history_keeps_valid(m, first);
        assert(ops[ops.len() - 1] == ops.last());
        lemma_operation_lookup(m.after_all(first), ops.last(), key);
        if forall|i: int| 0 <= i < ops.len() ==> !(#[trigger] ops[i]).writes(key) {
            assert forall|i: int| 0 <= i < first.len() implies !(#[trigger] first[i]).writes(
                key,
            ) by {
                assert(first[i] == ops[i]);
            }
        }
    }
}

/// A key that was handed out stays one that was handed out, and the set keeps its slot,
/// whatever is done with the set.
pub proof fn law_history_remembers_keys<T>(
    m: SparseSetModel<T>,
    ops: Seq<Operation<T>>,
    key: SparseKey,
)
    requires
        m.valid(),
        m.allows_all(ops),
        m.issued(key),
    ensures
        m.after_all(ops).issued(key),
        m.after_all(ops).has_slot(key),
    decreases ops.len(),
{
    if ops.len() > 0 {
        law_history_remembers_keys(m, ops.drop_last(), key);
        law_history_keeps_valid(m, ops.drop_last());
        law_operation_remembers_keys(m.after_all(ops.drop_last()), ops.last(), key);
    }
}

/// No key is handed out twice: the key for a value that is added is not the key that any value
/// got earlier.
pub proof fn law_keys_never_repeat<T>(m: SparseSetModel<T>, value: T, ops: Seq<Operation<T>>)
    requires
        m.valid(),
        m.allows(Operation::Push(value)),
        m.pushed(value).allows_all(ops),
    ensures
        m.pushed(value).after_all(ops).next_key() != m.next_key(),
{
    let n = m.pushed(value);
    laws::law_push_keeps_valid(m, value);
    laws::law_push_lookup(m, value, m.next_key());
    laws::lemma_contains_has_slot(n, m.next_key());
    law_history_remembers_keys(n, ops, m.next_key());
    law_history_keeps_valid(n, ops);
    laws::law_push_key_is_new(n.after_all(ops));
}

} // verus!
