use vstd::prelude::*;
use crate::history::Operation;
use crate::laws;
use crate::model::SparseSetModel;
use crate::sparse_key::SparseKey;

verus! {

/// A set contains the keys of its entries and no others.
pub proof fn law_contains_keys_of_entries<T>(m: SparseSetModel<T>, key: SparseKey)
    ensures
        m.contains(key) <==> exists|i: int|
            0 <= i < m.entries.len() && (#[trigger] m.entries[i]).0 == key,
{
}

/// A look-up finds a value if and only if the key has an entry with that value, and finds nothing
/// if and only if the key has no entry.
pub proof fn law_lookup_finds_entries<T>(m: SparseSetModel<T>, key: SparseKey, value: T)
    requires
        m.valid(),
    ensures
        m.lookup(key) == Some(value) <==> exists|i: int|
            0 <= i < m.entries.len() && #[trigger] m.entries[i] == (key, value),
        m.lookup(key) is None <==> forall|i: int|
            0 <= i < m.entries.len() ==> (#[trigger] m.entries[i]).0 != key,
{
    if m.contains(key) {
        let p = m.position(key);
        assert(m.entries[p].0 == key);
        assert(m.entries[p] == (key, m.entries[p].1));
    }
    assert forall|i: int| 0 <= i < m.entries.len() && (#[trigger] m.entries[i]).0 == key implies
        m.contains(key) && m.lookup(key) == Some(m.entries[i].1) by {
        laws::lemma_position(m, i);
    }
}

/// The place of a key is the place of its entry.
pub proof fn law_position_of_entry<T>(m: SparseSetModel<T>, i: int)
    requires
        m.valid(),
        0 <= i < m.entries.len(),
    ensures
        m.position(m.entries[i].0) == i,
        m.value_of(m.entries[i].0) == m.entries[i].1,
{
    laws::lemma_position(m, i);
}

/// The keys and the values are those of the entries, in the same order.
pub proof fn law_keys_and_values_of_entries<T>(m: SparseSetModel<T>)
    ensures
        m.keys().len() == m.entries.len(),
        m.values().len() == m.entries.len(),
        forall|i: int| 0 <= i < m.entries.len() ==> #[trigger] m.keys()[i] == m.entries[i].0,
        forall|i: int| 0 <= i < m.entries.len() ==> #[trigger] m.values()[i] == m.entries[i].1,
{
}

/// In a valid set no two entries share a key or a slot, and a key carries the number of values
/// that were removed from its slot before.
pub proof fn law_entries_have_keys_of_their_own<T>(m: SparseSetModel<T>)
    requires
        m.valid(),
    ensures
        forall|i: int, j: int|
            0 <= i < j < m.entries.len() ==> (#[trigger] m.entries[i]).0 != (
            #[trigger] m.entries[j]).0 && m.entries[i].0.slot() != m.entries[j].0.slot(),
        forall|i: int|
            0 <= i < m.entries.len() ==> (#[trigger] m.entries[i]).0.slot() < m.removals.len()
                && m.entries[i].0.epoch() == m.removals[m.entries[i].0.slot() as int],
{
    assert forall|i: int| 0 <= i < m.entries.len() implies (#[trigger] m.entries[i]).0.slot()
        < m.removals.len() && m.entries[i].0.epoch()
        == m.removals[m.entries[i].0.slot() as int] by {
        assert(m.has_slot(m.entries[i].0));
    }
}

/// A set may be asked for a key if it has the slot that the key names.
pub proof fn law_has_slot<T>(m: SparseSetModel<T>, key: SparseKey)
    ensures
        m.has_slot(key) <==> key.slot() < m.removals.len(),
{
}

/// A key was handed out if its slot has lost more values than the key carries, or if the key has
/// an entry.
pub proof fn law_issued<T>(m: SparseSetModel<T>, key: SparseKey)
    requires
        m.valid(),
    ensures
        m.issued(key) <==> {
            ||| key.slot() < m.removals.len() && key.epoch() < m.removals[key.slot() as int]
            ||| exists|i: int| 0 <= i < m.entries.len() && (#[trigger] m.entries[i]).0 == key
        },
{
    if m.contains(key) {
        laws::lemma_contains_has_slot(m, key);
    }
}

/// A slot is in use if an entry has it, and exhausted once it has lost `usize::MAX + 1` values.
pub proof fn law_slot_states<T>(m: SparseSetModel<T>, slot: nat)
    ensures
        m.live(slot) <==> exists|i: int|
            0 <= i < m.entries.len() && (#[trigger] m.entries[i]).0.slot() == slot,
        m.exhausted(slot) <==> slot < m.removals.len() && m.removals[slot as int] == usize::MAX + 1,
{
    assert forall|i: int|
        0 <= i < m.entries.len() && (#[trigger] m.entries[i]).0.slot() == slot implies m.live(
        slot,
    ) by {
        assert(m.entries[i].0.slot() == slot);
    }
}

/// A new set has no entries and no slots.
pub proof fn law_empty_has_nothing<T>()
    ensures
        SparseSetModel::<T>::empty().entries.len() == 0,
        SparseSetModel::<T>::empty().removals.len() == 0,
        SparseSetModel::<T>::empty().free.len() == 0,
{
}

/// Adding a value adds one entry at the end, of the new key and the value, and leaves every other
/// entry as it is.
pub proof fn law_push_adds_an_entry<T>(m: SparseSetModel<T>, value: T)
    ensures
        m.pushed(value).entries.len() == m.entries.len() + 1,
        m.pushed(value).entries[m.entries.len() as int] == (m.next_key(), value),
        forall|i: int|
            0 <= i < m.entries.len() ==> #[trigger] m.pushed(value).entries[i] == m.entries[i],
{
}

/// Adding a value takes the slot that was freed last, with the number of values that it has lost,
/// and only if none is free a new slot, which has lost none.
pub proof fn law_push_takes_a_slot<T>(m: SparseSetModel<T>, value: T)
    requires
        m.valid(),
    ensures
        m.free.len() > 0 ==> {
            &&& m.next_key().slot() == m.free[m.free.len() - 1]
            &&& m.next_key().epoch() == m.removals[m.free[m.free.len() - 1] as int]
            &&& m.pushed(value).removals == m.removals
            &&& m.pushed(value).free == m.free.drop_last()
        },
        m.free.len() == 0 ==> {
            &&& m.next_key().slot() == m.removals.len()
            &&& m.next_key().epoch() == 0
            &&& m.pushed(value).removals == m.removals.push(0)
            &&& m.pushed(value).free.len() == 0
        },
{
    if m.free.len() > 0 {
        let slot = m.free[m.free.len() - 1];
        assert(slot < m.removals.len() && m.removals[slot as int] <= usize::MAX);
    }
}

/// Removing a value takes its entry out and moves each later entry one place down.
pub proof fn law_remove_takes_an_entry_out<T>(m: SparseSetModel<T>, p: int)
    requires
        m.valid(),
        0 <= p < m.entries.len(),
    ensures
        m.removed(m.entries[p].0).entries.len() == m.entries.len() - 1,
        forall|i: int|
            0 <= i < m.entries.len() - 1 ==> #[trigger] m.removed(m.entries[p].0).entries[i]
                == m.entries[if i < p { i } else { i + 1 }],
{
    laws::lemma_position(m, p);
}

/// Removing a value by moving the last one into its place takes its entry out and moves no entry
/// but the last one.
pub proof fn law_swap_remove_takes_an_entry_out<T>(m: SparseSetModel<T>, p: int)
    requires
        m.valid(),
        0 <= p < m.entries.len(),
    ensures
        m.swap_removed(m.entries[p].0).entries.len() == m.entries.len() - 1,
        forall|i: int|
            0 <= i < m.entries.len() - 1 ==> #[trigger] m.swap_removed(m.entries[p].0).entries[i]
                == m.entries[if i == p { m.entries.len() - 1 } else { i }],
{
    laws::lemma_position(m, p);
}

/// Removing a value, in either way, counts the removal at its slot and at no other, and makes the
/// slot the next one to be used unless it has lost `usize::MAX + 1` values.
pub proof fn law_remove_frees_a_slot<T>(m: SparseSetModel<T>, p: int)
    requires
        m.valid(),
        0 <= p < m.entries.len(),
    ensures
        ({
            let key = m.entries[p].0;
            let n = m.removed(key);
            &&& n.removals.len() == m.removals.len()
            &&& forall|s: int|
                0 <= s < m.removals.len() ==> #[trigger] n.removals[s] == if s == key.slot() {
                    m.removals[s] + 1
                } else {
                    m.removals[s]
                }
            &&& key.epoch() < usize::MAX ==> n.free == m.free.push(key.slot())
            &&& key.epoch() == usize::MAX ==> n.free == m.free
            &&& m.swap_removed(key).removals == n.removals
            &&& m.swap_removed(key).free == n.free
        }),
{
    laws::lemma_position(m, p);
    laws::lemma_contains_has_slot(m, m.entries[p].0);
}

/// Removing what is not there, in either way, changes nothing.
pub proof fn law_remove_of_no_entry<T>(m: SparseSetModel<T>, key: SparseKey)
    requires
        forall|i: int| 0 <= i < m.entries.len() ==> (#[trigger] m.entries[i]).0 != key,
    ensures
        m.removed(key) == m,
        m.swap_removed(key) == m,
{
}

/// Swapping two values exchanges their entries and changes nothing else.
pub proof fn law_swap_exchanges_entries<T>(m: SparseSetModel<T>, p: int, q: int)
    requires
        m.valid(),
        0 <= p < m.entries.len(),
        0 <= q < m.entries.len(),
    ensures
        ({
            let n = m.swapped(m.entries[p].0, m.entries[q].0);
            &&& n.entries.len() == m.entries.len()
            &&& n.entries[p] == m.entries[q]
            &&& n.entries[q] == m.entries[p]
            &&& forall|i: int|
                0 <= i < m.entries.len() && i != p && i != q ==> #[trigger] n.entries[i]
                    == m.entries[i]
            &&& n.removals == m.removals
            &&& n.free == m.free
        }),
{
    laws::lemma_position(m, p);
    laws::lemma_position(m, q);
}

/// Giving a key another value changes that value and nothing else: every key stays at its place,
/// and every other value too.
pub proof fn law_update_changes_one_value<T>(m: SparseSetModel<T>, p: int, value: T)
    requires
        m.valid(),
        0 <= p < m.entries.len(),
    ensures
        ({
            let n = m.updated(m.entries[p].0, value);
            &&& n.entries.len() == m.entries.len()
            &&& forall|i: int|
                0 <= i < m.entries.len() ==> (#[trigger] n.entries[i]).0 == m.entries[i].0
                    && n.entries[i].1 == if i == p {
                    value
                } else {
                    m.entries[i].1
                }
            &&& n.keys() == m.keys()
            &&& n.values() == m.values().update(p, value)
            &&& n.removals == m.removals
            &&& n.free == m.free
        }),
{
    laws::lemma_position(m, p);
}

/// Giving the keys other values in order changes the values and nothing else: every key stays at
/// its place.
pub proof fn law_with_values_changes_values<T>(m: SparseSetModel<T>, values: Seq<T>)
    requires
        values.len() == m.entries.len(),
    ensures
        ({
            let n = m.with_values(values);
            &&& n.entries.len() == m.entries.len()
            &&& forall|i: int|
                0 <= i < m.entries.len() ==> #[trigger] n.entries[i] == (
                    m.entries[i].0,
                    values[i],
                )
            &&& n.keys() == m.keys()
            &&& n.values() == values
            &&& n.removals == m.removals
            &&& n.free == m.free
        }),
{
}

/// A history removes a key with the two removals of that key, and writes to it with a new value
/// for it or with new values for all keys.
pub proof fn law_what_touches_a_key<T>(op: Operation<T>, key: SparseKey)
    ensures
        op.removes(key) <==> match op {
            Operation::Remove(removed) => removed == key,
            Operation::SwapRemove(removed) => removed == key,
            _ => false,
        },
        op.writes(key) <==> match op {
            Operation::Update(updated, _) => updated == key,
            Operation::WithValues(_) => true,
            _ => false,
        },
{
}

/// A history is done one operation after the other, and its operations are those of the set.
pub proof fn law_history_goes_step_by_step<T>(
    m: SparseSetModel<T>,
    ops: Seq<Operation<T>>,
    op: Operation<T>,
)
    ensures
        m.after_all(Seq::empty()) == m,
        m.allows_all(Seq::empty()),
        m.after_all(ops.push(op)) == m.after_all(ops).after(op),
        m.allows_all(ops.push(op)) <==> m.allows_all(ops) && m.after_all(ops).allows(op),
        m.after(op) == match op {
            Operation::Push(value) => m.pushed(value),
            Operation::Remove(key) => m.removed(key),
            Operation::SwapRemove(key) => m.swap_removed(key),
            Operation::Swap(key1, key2) => m.swapped(key1, key2),
            Operation::Update(key, value) => m.updated(key, value),
            Operation::WithValues(values) => m.with_values(values),
        },
{
    assert(ops.push(op).drop_last() =~= ops);
}

/// A set allows every removal of a key whose slot it has, every exchange and every new value of
/// keys that it contains, and new values for all keys; and it allows adding a value while a slot
/// is free or it has fewer slots than half of the values of `usize`.
pub proof fn law_what_a_set_allows<T>(
    m: SparseSetModel<T>,
    key1: SparseKey,
    key2: SparseKey,
    value: T,
    values: Seq<T>,
)
    ensures
        m.allows(Operation::Push(value)) <== m.free.len() > 0 && m.removals.len() <= usize::MAX / 2,
        m.allows(Operation::Push(value)) <== m.removals.len() < usize::MAX / 2,
        m.allows(Operation::Remove(key1)) <== key1.slot() < m.removals.len(),
        m.allows(Operation::SwapRemove(key1)) <== key1.slot() < m.removals.len(),
        m.allows(Operation::Swap(key1, key2)) <== m.contains(key1) && m.contains(key2),
        m.allows(Operation::Update(key1, value)) <== m.contains(key1),
        m.allows(Operation::WithValues(values)) <== values.len() == m.entries.len(),
{
}

} // verus!
