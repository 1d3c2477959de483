use vstd::prelude::*;
use crate::model::SparseSetModel;
use crate::sparse_entry::{MAX_EPOCH, MAX_SPARSE_INDEX};
use crate::sparse_key::SparseKey;

verus! {

/// A key stands at one place.
pub proof fn lemma_position<T>(m: SparseSetModel<T>, i: int)
    requires
        m.valid(),
        0 <= i < m.entries.len(),
    ensures
        m.contains(m.entries[i].0),
        m.position(m.entries[i].0) == i,
        m.value_of(m.entries[i].0) == m.entries[i].1,
{
    let key = m.entries[i].0;
    assert(m.entries[i].0 == key);
    let p = m.position(key);
    assert(m.entries[p].0 == key);
    assert(m.entries[p].0.slot() == m.entries[i].0.slot());
}

/// A set has the slot of each of its keys.
pub proof fn lemma_contains_has_slot<T>(m: SparseSetModel<T>, key: SparseKey)
    requires
        m.valid(),
        m.contains(key),
    ensures
        m.has_slot(key),
        key.epoch() == m.removals[key.slot() as int],
{
    assert(m.entries[m.position(key)].0 == key);
}

/// The set that was just created is valid.
pub proof fn law_empty_is_valid<T>()
    ensures
        SparseSetModel::<T>::empty().valid(),
{
}

/// Adding a value keeps the set valid, while there is room for its slot.
pub proof fn law_push_keeps_valid<T>(m: SparseSetModel<T>, value: T)
    requires
        m.valid(),
        m.pushed(value).removals.len() <= MAX_SPARSE_INDEX,
    ensures
        m.pushed(value).valid(),
{
    let n = m.pushed(value);
    let slot = if m.free.len() == 0 { m.removals.len() } else { m.free.last() };
    assert(m.next_key().slot() == slot);
    if m.free.len() > 0 {
        assert(m.free[m.free.len() - 1] == slot);
        assert(!m.live(slot));
    }
    assert forall|i: int| 0 <= i < m.entries.len() implies m.entries[i].0.slot() != slot by {
        assert(m.has_slot(m.entries[i].0));
    }
    assert(n.entries[m.entries.len() as int].0.slot() == slot);
    assert forall|j: int| 0 <= j < n.free.len() implies !n.live(n.free[j]) by {
        assert(n.free[j] == m.free[j]);
        assert(n.free[j] != slot);
        assert(!m.live(m.free[j]));
        if n.live(n.free[j]) {
            let i = choose|i: int|
                0 <= i < n.entries.len() && #[trigger] n.entries[i].0.slot() == n.free[j];
            assert(m.entries[i].0.slot() == m.free[j]);
        }
    }
    assert forall|s: nat| s < n.removals.len() implies n.live(s) || n.free.contains(s)
        || #[trigger] n.exhausted(s) by {
        if s != slot {
            if m.live(s) {
                let i = choose|i: int|
                    0 <= i < m.entries.len() && #[trigger] m.entries[i].0.slot() == s;
                assert(n.entries[i].0.slot() == s);
            } else if m.free.contains(s) {
                let j = choose|j: int| 0 <= j < m.free.len() && m.free[j] == s;
                assert(n.free[j] == s);
            } else {
                assert(m.exhausted(s));
            }
        }
    }
}

/// A set stays valid when a value leaves and its slot is freed, in whatever order the other
/// entries are then.
proof fn lemma_freed_is_valid<T>(
    m: SparseSetModel<T>,
    key: SparseKey,
    entries: Seq<(SparseKey, T)>,
)
    requires
        m.valid(),
        m.contains(key),
        forall|i: int|
            0 <= i < entries.len() ==> #[trigger] entries[i].0 != key && m.entries.contains(
                entries[i],
            ),
        forall|i: int, j: int|
            0 <= i < entries.len() && 0 <= j < entries.len() && i != j ==> (
            #[trigger] entries[i]).0 != (#[trigger] entries[j]).0,
        forall|i: int|
            0 <= i < m.entries.len() && m.entries[i].0 != key ==> entries.contains(
                #[trigger] m.entries[i],
            ),
    ensures
        m.freed(key, entries).valid(),
{
    let n = m.freed(key, entries);
    let slot = key.slot();
    let p = m.position(key);
    assert(m.entries[p].0 == key);
    assert(m.live(slot)) by {
        assert(m.entries[p].0.slot() == slot);
    }
    assert forall|i: int| 0 <= i < entries.len() implies n.has_slot((#[trigger] entries[i]).0)
        && entries[i].0.epoch() == n.removals[entries[i].0.slot() as int] && entries[i].0.slot()
        != slot && m.live(entries[i].0.slot()) by {
        let q = m.entries.index_of(entries[i]);
        assert(m.entries[q] == entries[i]);
        assert(m.entries[q].0.slot() == entries[i].0.slot());
        assert(q != p);
        assert(m.entries[q].0.slot() != m.entries[p].0.slot());
    }
    assert forall|i: int, j: int|
        0 <= i < entries.len() && 0 <= j < entries.len() && i != j implies (
    #[trigger] entries[i]).0.slot() != (#[trigger] entries[j]).0.slot() by {
        let q = m.entries.index_of(entries[i]);
        let r = m.entries.index_of(entries[j]);
        assert(m.entries[q] == entries[i]);
        assert(m.entries[r] == entries[j]);
        assert(entries[i].0 != entries[j].0);
        assert(q != r);
    }
    assert forall|s: nat| !m.live(s) implies !#[trigger] n.live(s) by {
        if n.live(s) {
            let i = choose|i: int|
                0 <= i < n.entries.len() && #[trigger] n.entries[i].0.slot() == s;
            assert(m.live(entries[i].0.slot()));
        }
    }
    assert(!n.live(slot)) by {
        if n.live(slot) {
            let i = choose|i: int|
                0 <= i < n.entries.len() && #[trigger] n.entries[i].0.slot() == slot;
            assert(entries[i].0.slot() != slot);
        }
    }
    assert forall|j: int| 0 <= j < n.free.len() implies (#[trigger] n.free[j]) < n.removals.len()
        && !n.live(n.free[j]) && 1 <= n.removals[n.free[j] as int] <= MAX_EPOCH by {
        if j < m.free.len() {
            assert(n.free[j] == m.free[j]);
            assert(!m.live(m.free[j]));
        }
    }
    assert(n.free.no_duplicates()) by {
        assert forall|j: int| 0 <= j < m.free.len() implies m.free[j] != slot by {
            assert(!m.live(m.free[j]));
        }
    }
    assert forall|s: nat| s < n.removals.len() implies n.live(s) || n.free.contains(s)
        || #[trigger] n.exhausted(s) by {
        if s == slot {
            if key.epoch() < MAX_EPOCH {
                assert(n.free[m.free.len() as int] == s);
            }
        } else if m.live(s) {
            let i = choose|i: int|
                0 <= i < m.entries.len() && #[trigger] m.entries[i].0.slot() == s;
            assert(entries.contains(m.entries[i]));
            let q = entries.index_of(m.entries[i]);
            assert(n.entries[q].0.slot() == s);
        } else if m.free.contains(s) {
            let j = choose|j: int| 0 <= j < m.free.len() && m.free[j] == s;
            assert(n.free[j] == s);
        } else {
            assert(m.exhausted(s));
        }
    }
}

/// Removing a value keeps the set valid.
pub proof fn law_remove_keeps_valid<T>(m: SparseSetModel<T>, key: SparseKey)
    requires
        m.valid(),
    ensures
        m.removed(key).valid(),
{
    if m.contains(key) {
        let p = m.position(key);
        let rest = m.entries.remove(p);
        assert(m.entries[p].0 == key);
        assert forall|i: int| 0 <= i < rest.len() implies #[trigger] rest[i].0 != key
            && m.entries.contains(rest[i]) by {
            let q = if i < p { i } else { i + 1 };
            assert(rest[i] == m.entries[q]);
            assert(m.entries[q].0.slot() != m.entries[p].0.slot());
        }
        assert forall|i: int, j: int|
            0 <= i < rest.len() && 0 <= j < rest.len() && i != j implies (#[trigger] rest[i]).0 != (
        #[trigger] rest[j]).0 by {
            let q = if i < p { i } else { i + 1 };
            let r = if j < p { j } else { j + 1 };
            assert(m.entries[q].0.slot() != m.entries[r].0.slot());
        }
        assert forall|i: int|
            0 <= i < m.entries.len() && m.entries[i].0 != key implies rest.contains(
            #[trigger] m.entries[i],
        ) by {
            let q = if i < p { i } else { i - 1 };
            assert(rest[q] == m.entries[i]);
        }
        lemma_freed_is_valid(m, key, rest);
    }
}

/// Removing a value by moving the last one into its place keeps the set valid.
pub proof fn law_swap_remove_keeps_valid<T>(m: SparseSetModel<T>, key: SparseKey)
    requires
        m.valid(),
    ensures
        m.swap_removed(key).valid(),
{
    if m.contains(key) {
        let p = m.position(key);
        let last = m.entries.len() - 1;
        let rest = m.entries.update(p, m.entries.last()).drop_last();
        assert(m.entries[p].0 == key);
        assert forall|i: int| 0 <= i < rest.len() implies #[trigger] rest[i].0 != key
            && m.entries.contains(rest[i]) by {
            let q = if i == p { last } else { i };
            assert(rest[i] == m.entries[q]);
            assert(m.entries[q].0.slot() != m.entries[p].0.slot());
        }
        assert forall|i: int, j: int|
            0 <= i < rest.len() && 0 <= j < rest.len() && i != j implies (#[trigger] rest[i]).0 != (
        #[trigger] rest[j]).0 by {
            let q = if i == p { last } else { i };
            let r = if j == p { last } else { j };
            assert(m.entries[q].0.slot() != m.entries[r].0.slot());
        }
        assert forall|i: int|
            0 <= i < m.entries.len() && m.entries[i].0 != key implies rest.contains(
            #[trigger] m.entries[i],
        ) by {
            let q = if i == last { p } else { i };
            assert(rest[q] == m.entries[i]);
        }
        lemma_freed_is_valid(m, key, rest);
    }
}

/// A set stays valid when its entries are put into another order or get other values.
proof fn lemma_rearranged_is_valid<T>(m: SparseSetModel<T>, n: SparseSetModel<T>)
    requires
        m.valid(),
        n.removals == m.removals,
        n.free == m.free,
        forall|i: int|
            0 <= i < n.entries.len() ==> m.contains((#[trigger] n.entries[i]).0),
        forall|i: int|
            0 <= i < m.entries.len() ==> n.contains((#[trigger] m.entries[i]).0),
        forall|i: int, j: int|
            0 <= i < n.entries.len() && 0 <= j < n.entries.len() && i != j ==> (
            #[trigger] n.entries[i]).0 != (#[trigger] n.entries[j]).0,
    ensures
        n.valid(),
{
    assert forall|i: int, j: int|
        0 <= i < n.entries.len() && 0 <= j < n.entries.len() && i != j implies (
    #[trigger] n.entries[i]).0.slot() != (#[trigger] n.entries[j]).0.slot() by {
        let q = m.position(n.entries[i].0);
        let r = m.position(n.entries[j].0);
        assert(m.contains(n.entries[i].0) && m.contains(n.entries[j].0));
        assert(m.entries[q].0 == n.entries[i].0);
        assert(m.entries[r].0 == n.entries[j].0);
        assert(q != r);
    }
    assert forall|i: int| 0 <= i < n.entries.len() implies n.has_slot((#[trigger] n.entries[i]).0)
        && n.entries[i].0.epoch() == n.removals[n.entries[i].0.slot() as int] by {
        let q = m.position(n.entries[i].0);
        assert(m.entries[q].0 == n.entries[i].0);
    }
    assert forall|s: nat| #[trigger] n.live(s) == m.live(s) by {
        if n.live(s) {
            let i = choose|i: int|
                0 <= i < n.entries.len() && #[trigger] n.entries[i].0.slot() == s;
            let q = m.position(n.entries[i].0);
            assert(m.entries[q].0.slot() == s);
        }
        if m.live(s) {
            let i = choose|i: int|
                0 <= i < m.entries.len() && #[trigger] m.entries[i].0.slot() == s;
            let q = n.position(m.entries[i].0);
            assert(n.entries[q].0.slot() == s);
        }
    }
    assert forall|s: nat| s < n.removals.len() implies n.live(s) || n.free.contains(s)
        || #[trigger] n.exhausted(s) by {
        assert(m.exhausted(s) == n.exhausted(s));
    }
}

/// The place of the entry that comes to stand at `i` when the places `p` and `q` are exchanged.
spec fn exchange(p: int, q: int, i: int) -> int {
    if i == p {
        q
    } else if i == q {
        p
    } else {
        i
    }
}

/// Exchanging two values keeps the set valid.
pub proof fn law_swap_keeps_valid<T>(m: SparseSetModel<T>, key1: SparseKey, key2: SparseKey)
    requires
        m.valid(),
        m.contains(key1),
        m.contains(key2),
    ensures
        m.swapped(key1, key2).valid(),
{
    let n = m.swapped(key1, key2);
    let p = m.position(key1);
    let q = m.position(key2);
    assert forall|i: int| 0 <= i < m.entries.len() implies #[trigger] n.entries[i]
        == m.entries[exchange(p, q, i)] by {}
    assert forall|i: int| 0 <= i < n.entries.len() implies m.contains(
        (#[trigger] n.entries[i]).0,
    ) by {
        assert(m.entries[exchange(p, q, i)].0 == n.entries[i].0);
    }
    assert forall|i: int| 0 <= i < m.entries.len() implies n.contains(
        (#[trigger] m.entries[i]).0,
    ) by {
        assert(n.entries[exchange(p, q, i)].0 == m.entries[i].0);
    }
    assert forall|i: int, j: int|
        0 <= i < n.entries.len() && 0 <= j < n.entries.len() && i != j implies (
    #[trigger] n.entries[i]).0 != (#[trigger] n.entries[j]).0 by {
        assert(m.entries[exchange(p, q, i)].0.slot() != m.entries[exchange(p, q, j)].0.slot());
    }
    lemma_rearranged_is_valid(m, n);
}

/// Giving the keys other values keeps the set valid.
pub proof fn law_with_values_keeps_valid<T>(m: SparseSetModel<T>, values: Seq<T>)
    requires
        m.valid(),
        values.len() == m.entries.len(),
    ensures
        m.with_values(values).valid(),
{
    let n = m.with_values(values);
    assert forall|i: int| 0 <= i < n.entries.len() implies m.contains(
        (#[trigger] n.entries[i]).0,
    ) by {
        assert(m.entries[i].0 == n.entries[i].0);
    }
    assert forall|i: int| 0 <= i < m.entries.len() implies n.contains(
        (#[trigger] m.entries[i]).0,
    ) by {
        assert(n.entries[i].0 == m.entries[i].0);
    }
    assert forall|i: int, j: int|
        0 <= i < n.entries.len() && 0 <= j < n.entries.len() && i != j implies (
    #[trigger] n.entries[i]).0 != (#[trigger] n.entries[j]).0 by {
        assert(m.entries[i].0.slot() != m.entries[j].0.slot());
    }
    lemma_rearranged_is_valid(m, n);
}

/// Giving a key another value keeps the set valid.
pub proof fn law_update_keeps_valid<T>(m: SparseSetModel<T>, key: SparseKey, value: T)
    requires
        m.valid(),
        m.contains(key),
    ensures
        m.updated(key, value).valid(),
{
    let values = m.values().update(m.position(key), value);
    assert(m.updated(key, value) =~= m.with_values(values));
    law_with_values_keeps_valid(m, values);
}

/// A set has at least as many slots as values.
pub proof fn law_size_within_slots<T>(m: SparseSetModel<T>)
    requires
        m.valid(),
    ensures
        m.entries.len() <= m.removals.len(),
{
    let slots = Seq::new(m.entries.len(), |i: int| m.entries[i].0.slot() as int);
    assert(slots.no_duplicates()) by {
        assert forall|i: int, j: int|
            0 <= i < slots.len() && 0 <= j < slots.len() && i != j implies slots[i] != slots[j] by {
            assert(m.entries[i].0.slot() != m.entries[j].0.slot());
        }
    }
    slots.unique_seq_to_set();
    let range = vstd::set_lib::set_int_range(0, m.removals.len() as int);
    vstd::set_lib::lemma_int_range(0, m.removals.len() as int);
    assert(slots.to_set().subset_of(range)) by {
        assert forall|s: int| slots.to_set().contains(s) implies range.contains(s) by {
            let i = slots.index_of(s);
            assert(slots[i] == s);
            assert(m.has_slot(m.entries[i].0));
        }
    }
    vstd::set_lib::lemma_len_subset(slots.to_set(), range);
}

/// The key that the next value gets names the slot and the epoch that it was made for.
proof fn lemma_next_key<T>(m: SparseSetModel<T>)
    requires
        m.valid(),
    ensures
        m.free.len() == 0 ==> m.next_key().slot() == m.removals.len() && m.next_key().epoch() == 0,
        m.free.len() > 0 ==> m.next_key().slot() == m.free.last() && m.next_key().epoch()
            == m.removals[m.free.last() as int],
{
    if m.free.len() > 0 {
        assert(m.free[m.free.len() - 1] == m.free.last());
    }
}

/// The key for a new value has never been handed out before.
pub proof fn law_push_key_is_new<T>(m: SparseSetModel<T>)
    requires
        m.valid(),
    ensures
        !m.issued(m.next_key()),
        !m.contains(m.next_key()),
{
    let key = m.next_key();
    lemma_next_key(m);
    if m.contains(key) {
        let p = m.position(key);
        assert(m.entries[p].0 == key);
        assert(m.entries[p].0.slot() == key.slot());
        assert(m.has_slot(key));
        if m.free.len() > 0 {
            assert(!m.live(m.free[m.free.len() - 1]));
        }
    }
}

/// After a value was added, its key finds it, and every other key finds what it found before.
pub proof fn law_push_lookup<T>(m: SparseSetModel<T>, value: T, key: SparseKey)
    requires
        m.valid(),
        m.pushed(value).removals.len() <= MAX_SPARSE_INDEX,
    ensures
        m.pushed(value).lookup(key) == if key == m.next_key() {
            Some(value)
        } else {
            m.lookup(key)
        },
{
    let n = m.pushed(value);
    law_push_keeps_valid(m, value);
    law_push_key_is_new(m);
    if n.contains(key) {
        let i = n.position(key);
        assert(n.entries[i].0 == key);
        if i < m.entries.len() {
            assert(m.entries[i].0 == key);
            lemma_position(m, i);
        }
    }
    if m.contains(key) {
        let i = m.position(key);
        assert(m.entries[i].0 == key);
        assert(n.entries[i].0 == key);
        lemma_position(n, i);
    }
    lemma_position(n, m.entries.len() as int);
}

/// What a look-up finds depends on the entries alone, not on their order.
proof fn lemma_same_lookup<T>(m: SparseSetModel<T>, n: SparseSetModel<T>, key: SparseKey)
    requires
        m.valid(),
        n.valid(),
        m.contains(key) ==> n.entries.contains(m.entries[m.position(key)]),
        n.contains(key) ==> m.contains(key),
    ensures
        n.lookup(key) == m.lookup(key),
{
    if m.contains(key) {
        let p = m.position(key);
        assert(m.entries[p].0 == key);
        let q = n.entries.index_of(m.entries[p]);
        assert(n.entries[q] == m.entries[p]);
        lemma_position(n, q);
    }
}

/// After a value was removed, its key finds nothing, and every other key finds what it found
/// before.
pub proof fn law_remove_lookup<T>(m: SparseSetModel<T>, removed: SparseKey, key: SparseKey)
    requires
        m.valid(),
    ensures
        m.removed(removed).lookup(key) == if key == removed {
            None
        } else {
            m.lookup(key)
        },
{
    let n = m.removed(removed);
    law_remove_keeps_valid(m, removed);
    if m.contains(removed) {
        let p = m.position(removed);
        assert(m.entries[p].0 == removed);
        if n.contains(key) {
            let i = n.position(key);
            assert(n.entries[i].0 == key);
            let q = if i < p { i } else { i + 1 };
            assert(n.entries[i] == m.entries[q]);
            assert(m.entries[q].0 == key);
            assert(m.entries[q].0.slot() != m.entries[p].0.slot());
        }
        if key != removed {
            if m.contains(key) {
                let i = m.position(key);
                assert(m.entries[i].0 == key);
                let q = if i < p { i } else { i - 1 };
                assert(n.entries[q] == m.entries[i]);
            }
            lemma_same_lookup(m, n, key);
        }
    }
}

/// After a value was removed by moving the last one into its place, its key finds nothing, and
/// every other key finds what it found before.
pub proof fn law_swap_remove_lookup<T>(m: SparseSetModel<T>, removed: SparseKey, key: SparseKey)
    requires
        m.valid(),
    ensures
        m.swap_removed(removed).lookup(key) == if key == removed {
            None
        } else {
            m.lookup(key)
        },
{
    let n = m.swap_removed(removed);
    law_swap_remove_keeps_valid(m, removed);
    if m.contains(removed) {
        let p = m.position(removed);
        let last = m.entries.len() - 1;
        assert(m.entries[p].0 == removed);
        if n.contains(key) {
            let i = n.position(key);
            assert(n.entries[i].0 == key);
            let q = if i == p { last } else { i };
            assert(n.entries[i] == m.entries[q]);
            assert(m.entries[q].0 == key);
            assert(m.entries[q].0.slot() != m.entries[p].0.slot());
        }
        if key != removed {
            if m.contains(key) {
                let i = m.position(key);
                assert(m.entries[i].0 == key);
                let q = if i == last { p } else { i };
                assert(n.entries[q] == m.entries[i]);
            }
            lemma_same_lookup(m, n, key);
        }
    }
}

/// After two values were exchanged, every key finds what it found before.
pub proof fn law_swap_lookup<T>(
    m: SparseSetModel<T>,
    key1: SparseKey,
    key2: SparseKey,
    key: SparseKey,
)
    requires
        m.valid(),
        m.contains(key1),
        m.contains(key2),
    ensures
        m.swapped(key1, key2).lookup(key) == m.lookup(key),
{
    let n = m.swapped(key1, key2);
    let p = m.position(key1);
    let q = m.position(key2);
    law_swap_keeps_valid(m, key1, key2);
    if n.contains(key) {
        let i = n.position(key);
        assert(n.entries[i].0 == key);
        assert(m.entries[exchange(p, q, i)] == n.entries[i]);
        assert(m.entries[exchange(p, q, i)].0 == key);
    }
    if m.contains(key) {
        let i = m.position(key);
        assert(n.entries[exchange(p, q, i)] == m.entries[i]);
    }
    lemma_same_lookup(m, n, key);
}

/// After the keys got other values, in the order of iteration, each key finds its new value.
pub proof fn law_with_values_lookup<T>(m: SparseSetModel<T>, values: Seq<T>, key: SparseKey)
    requires
        m.valid(),
        values.len() == m.entries.len(),
    ensures
        m.with_values(values).lookup(key) == if m.contains(key) {
            Some(values[m.position(key)])
        } else {
            None
        },
{
    let n = m.with_values(values);
    law_with_values_keeps_valid(m, values);
    if m.contains(key) {
        let i = m.position(key);
        assert(m.entries[i].0 == key);
        assert(n.entries[i].0 == key);
        lemma_position(n, i);
    }
    if n.contains(key) {
        let i = n.position(key);
        assert(n.entries[i].0 == key);
        assert(m.entries[i].0 == key);
    }
}

/// After a key got another value, it finds that value, and every other key finds what it found
/// before.
pub proof fn law_update_lookup<T>(
    m: SparseSetModel<T>,
    updated: SparseKey,
    value: T,
    key: SparseKey,
)
    requires
        m.valid(),
        m.contains(updated),
    ensures
        m.updated(updated, value).lookup(key) == if key == updated {
            Some(value)
        } else {
            m.lookup(key)
        },
{
    let p = m.position(updated);
    let values = m.values().update(p, value);
    assert(m.entries[p].0 == updated);
    assert(m.updated(updated, value) =~= m.with_values(values));
    law_with_values_lookup(m, values, key);
    if m.contains(key) {
        assert(m.entries[m.position(key)].0 == key);
    }
}

/// Iterating over the keys gives each key of the set once, and iterating over the values gives
/// what the keys find, in the same order.
pub proof fn law_iteration<T>(m: SparseSetModel<T>)
    requires
        m.valid(),
    ensures
        m.keys().len() == m.entries.len(),
        m.values().len() == m.entries.len(),
        m.keys().no_duplicates(),
        forall|key: SparseKey| m.contains(key) <==> #[trigger] m.keys().contains(key),
        forall|i: int|
            0 <= i < m.entries.len() ==> m.has_slot(#[trigger] m.keys()[i]) && m.lookup(m.keys()[i])
                == Some(m.values()[i]),
{
    assert forall|i: int, j: int|
        0 <= i < m.keys().len() && 0 <= j < m.keys().len() && i != j implies m.keys()[i]
        != m.keys()[j] by {
        assert(m.entries[i].0.slot() != m.entries[j].0.slot());
    }
    assert forall|key: SparseKey| m.contains(key) <==> #[trigger] m.keys().contains(key) by {
        if m.contains(key) {
            let i = m.position(key);
            assert(m.entries[i].0 == key);
            assert(m.keys()[i] == key);
        }
        if m.keys().contains(key) {
            let i = m.keys().index_of(key);
            assert(m.entries[i].0 == key);
        }
    }
    assert forall|i: int| 0 <= i < m.entries.len() implies m.has_slot(#[trigger] m.keys()[i])
        && m.lookup(m.keys()[i]) == Some(m.values()[i]) by {
        lemma_position(m, i);
        lemma_contains_has_slot(m, m.entries[i].0);
    }
}

/// Adding a value puts it behind the others, whose order stays.
pub proof fn law_push_order<T>(m: SparseSetModel<T>, value: T)
    ensures
        m.pushed(value).keys() == m.keys().push(m.next_key()),
        m.pushed(value).values() == m.values().push(value),
{
}

/// Removing a value keeps the order of the others.
pub proof fn law_remove_order<T>(
    m: SparseSetModel<T>,
    removed: SparseKey,
    key1: SparseKey,
    key2: SparseKey,
)
    requires
        m.valid(),
        m.contains(key1),
        m.contains(key2),
        key1 != removed,
        key2 != removed,
        m.position(key1) < m.position(key2),
    ensures
        m.removed(removed).position(key1) < m.removed(removed).position(key2),
{
    if m.contains(removed) {
        let n = m.removed(removed);
        let p = m.position(removed);
        let i = m.position(key1);
        let j = m.position(key2);
        law_remove_keeps_valid(m, removed);
        assert(m.entries[p].0 == removed && m.entries[i].0 == key1 && m.entries[j].0 == key2);
        lemma_position(n, if i < p { i } else { i - 1 });
        lemma_position(n, if j < p { j } else { j - 1 });
    }
}

/// Removing a value by moving the last one into its place keeps the places of the others.
pub proof fn law_swap_remove_order<T>(m: SparseSetModel<T>, removed: SparseKey, key: SparseKey)
    requires
        m.valid(),
        m.contains(removed),
        m.contains(key),
        key != removed,
    ensures
        m.swap_removed(removed).position(key) == if m.position(key) == m.entries.len() - 1 {
            m.position(removed)
        } else {
            m.position(key)
        },
{
    let n = m.swap_removed(removed);
    let p = m.position(removed);
    let i = m.position(key);
    law_swap_remove_keeps_valid(m, removed);
    assert(m.entries[p].0 == removed && m.entries[i].0 == key);
    lemma_position(n, if i == m.entries.len() - 1 { p } else { i });
}

/// The two ways to remove a value differ in the order of the others only.
pub proof fn law_removals_agree<T>(m: SparseSetModel<T>, removed: SparseKey, key: SparseKey)
    requires
        m.valid(),
    ensures
        m.removed(removed).lookup(key) == m.swap_removed(removed).lookup(key),
        m.removed(removed).entries.len() == m.swap_removed(removed).entries.len(),
        m.removed(removed).removals == m.swap_removed(removed).removals,
        m.removed(removed).free == m.swap_removed(removed).free,
        m.removed(removed).next_key() == m.swap_removed(removed).next_key(),
{
    law_remove_lookup(m, removed, key);
    law_swap_remove_lookup(m, removed, key);
    if m.contains(removed) {
        assert(m.entries[m.position(removed)].0 == removed);
    }
}

/// Removing a value makes the set smaller by one, and removing it again, in either way, changes
/// nothing.
pub proof fn law_remove_twice<T>(m: SparseSetModel<T>, key: SparseKey)
    requires
        m.valid(),
    ensures
        m.contains(key) ==> m.removed(key).entries.len() == m.entries.len() - 1,
        m.contains(key) ==> m.swap_removed(key).entries.len() == m.entries.len() - 1,
        m.removed(key).removed(key) == m.removed(key),
        m.removed(key).swap_removed(key) == m.removed(key),
        m.swap_removed(key).removed(key) == m.swap_removed(key),
        m.swap_removed(key).swap_removed(key) == m.swap_removed(key),
{
    law_remove_lookup(m, key, key);
    law_swap_remove_lookup(m, key, key);
    if m.contains(key) {
        assert(m.entries[m.position(key)].0 == key);
    }
}

/// Removing the value that was added last, in either way, leaves the entries that there were
/// before.
pub proof fn law_push_then_remove<T>(m: SparseSetModel<T>, value: T)
    requires
        m.valid(),
        m.pushed(value).removals.len() <= MAX_SPARSE_INDEX,
    ensures
        m.pushed(value).lookup(m.next_key()) == Some(value),
        m.pushed(value).removed(m.next_key()).entries == m.entries,
        m.pushed(value).swap_removed(m.next_key()).entries == m.entries,
{
    let n = m.pushed(value);
    law_push_keeps_valid(m, value);
    law_push_lookup(m, value, m.next_key());
    lemma_position(n, m.entries.len() as int);
    assert(n.entries.remove(m.entries.len() as int) =~= m.entries);
    assert(n.entries.update(m.entries.len() as int, n.entries.last()).drop_last() =~= m.entries);
}

/// Exchanging two values exchanges their places, and leaves every other value where it is.
pub proof fn law_swap_order<T>(
    m: SparseSetModel<T>,
    key1: SparseKey,
    key2: SparseKey,
    key: SparseKey,
)
    requires
        m.valid(),
        m.contains(key1),
        m.contains(key2),
        m.contains(key),
    ensures
        m.swapped(key1, key2).position(key) == if key == key1 {
            m.position(key2)
        } else if key == key2 {
            m.position(key1)
        } else {
            m.position(key)
        },
{
    let n = m.swapped(key1, key2);
    let p = m.position(key1);
    let q = m.position(key2);
    let i = m.position(key);
    law_swap_keeps_valid(m, key1, key2);
    assert(m.entries[p].0 == key1 && m.entries[q].0 == key2 && m.entries[i].0 == key);
    assert(n.entries[exchange(p, q, i)] == m.entries[i]);
    lemma_position(n, exchange(p, q, i));
}

/// Exchanging two values is the same whichever is named first, exchanging them again undoes it,
/// and exchanging a value with itself does nothing.
pub proof fn law_swap_twice<T>(m: SparseSetModel<T>, key1: SparseKey, key2: SparseKey)
    requires
        m.valid(),
        m.contains(key1),
        m.contains(key2),
    ensures
        m.swapped(key1, key2) == m.swapped(key2, key1),
        m.swapped(key1, key2).swapped(key1, key2) == m,
        m.swapped(key1, key1) == m,
{
    let n = m.swapped(key1, key2);
    law_swap_order(m, key1, key2, key1);
    law_swap_order(m, key1, key2, key2);
    assert(m.entries[m.position(key1)].0 == key1 && m.entries[m.position(key2)].0 == key2);
    assert(n =~= m.swapped(key2, key1));
    assert(n.swapped(key1, key2) =~= m);
    assert(m.swapped(key1, key1) =~= m);
}

/// Adding a value reuses a slot that lost its value, if one has epochs left, and adds a slot
/// only otherwise.
pub proof fn law_push_reclaims_slots<T>(m: SparseSetModel<T>, value: T)
    requires
        m.valid(),
    ensures
        (exists|s: nat| s < m.removals.len() && !m.live(s) && !#[trigger] m.exhausted(s))
            ==> m.pushed(value).removals == m.removals,
        (forall|s: nat| s < m.removals.len() ==> m.live(s) || #[trigger] m.exhausted(s))
            ==> m.pushed(value).removals == m.removals.push(0),
{
    if m.free.len() > 0 {
        let s = m.free[m.free.len() - 1];
        assert(!m.live(s) && !m.exhausted(s));
    }
}

/// The slots that have gone through all their epochs.
pub open spec fn exhausted_slots(removals: Seq<nat>) -> Set<int> {
    Set::new(|s: int| 0 <= s < removals.len() && removals[s] == MAX_EPOCH + 1)
}

/// How many values have been removed in all.
pub open spec fn total(removals: Seq<nat>) -> nat
    decreases removals.len(),
{
    if removals.len() == 0 {
        0
    } else {
        total(removals.drop_last()) + removals.last()
    }
}

/// Each slot holds a value, or is free, or is exhausted.
pub proof fn law_slots_accounted_for<T>(m: SparseSetModel<T>)
    requires
        m.valid(),
    ensures
        exhausted_slots(m.removals).finite(),
        m.removals.len() == m.entries.len() + m.free.len() + exhausted_slots(m.removals).len(),
{
    let live = Seq::new(m.entries.len(), |i: int| m.entries[i].0.slot() as int);
    let free = Seq::new(m.free.len(), |j: int| m.free[j] as int);
    let spent = exhausted_slots(m.removals);
    let slots = vstd::set_lib::set_int_range(0, m.removals.len() as int);
    assert(live.no_duplicates()) by {
        assert forall|i: int, j: int|
            0 <= i < live.len() && 0 <= j < live.len() && i != j implies live[i] != live[j] by {
            assert(m.entries[i].0.slot() != m.entries[j].0.slot());
        }
    }
    live.unique_seq_to_set();
    free.unique_seq_to_set();
    vstd::set_lib::lemma_int_range(0, m.removals.len() as int);
    vstd::set_lib::lemma_len_subset(spent, slots);
    assert forall|s: int| live.to_set().contains(s) <==> 0 <= s < m.removals.len() && m.live(
        s as nat,
    ) by {
        if live.to_set().contains(s) {
            let i = live.index_of(s);
            assert(live[i] == s);
            assert(m.entries[i].0.slot() == s as nat);
            assert(m.has_slot(m.entries[i].0));
        }
        if 0 <= s < m.removals.len() && m.live(s as nat) {
            let i = choose|i: int|
                0 <= i < m.entries.len() && #[trigger] m.entries[i].0.slot() == s as nat;
            assert(live[i] == s);
        }
    }
    assert forall|s: int| live.to_set().contains(s) implies !spent.contains(s) by {
        let i = live.index_of(s);
        assert(live[i] == s);
        assert(m.entries[i].0.epoch() == m.removals[m.entries[i].0.slot() as int]);
    }
    assert forall|s: int| free.to_set().contains(s) implies slots.contains(s) && !spent.contains(s)
        && !live.to_set().contains(s) by {
        let j = free.index_of(s);
        assert(free[j] == s);
        assert(!m.live(m.free[j]));
    }
    assert forall|s: int| slots.contains(s) implies live.to_set().contains(s)
        || free.to_set().contains(s) || spent.contains(s) by {
        assert(m.live(s as nat) || m.free.contains(s as nat) || m.exhausted(s as nat));
        if m.free.contains(s as nat) {
            let j = m.free.index_of(s as nat);
            assert(free[j] == s);
        }
    }
    assert(slots =~= live.to_set() + free.to_set() + spent);
    vstd::set_lib::lemma_set_disjoint_lens(live.to_set(), free.to_set());
    vstd::set_lib::lemma_set_disjoint_lens(live.to_set() + free.to_set(), spent);
}

/// Adding a value leaves the number of removed values as it is, and removing a value that is in
/// the set, in either way, makes it larger by one.
pub proof fn law_removals_counted<T>(m: SparseSetModel<T>, key: SparseKey, value: T)
    requires
        m.valid(),
    ensures
        total(m.pushed(value).removals) == total(m.removals),
        m.contains(key) ==> total(m.removed(key).removals) == total(m.removals) + 1,
        m.contains(key) ==> total(m.swap_removed(key).removals) == total(m.removals) + 1,
{
    assert(m.removals.push(0).drop_last() =~= m.removals);
    if m.contains(key) {
        lemma_contains_has_slot(m, key);
        lemma_total_update(m.removals, key.slot() as int);
    }
}

proof fn lemma_total_update(removals: Seq<nat>, s: int)
    requires
        0 <= s < removals.len(),
    ensures
        total(removals.update(s, removals[s] + 1)) == total(removals) + 1,
    decreases removals.len(),
{
    let updated = removals.update(s, removals[s] + 1);
    if s < removals.len() - 1 {
        lemma_total_update(removals.drop_last(), s);
        assert(updated.drop_last() =~= removals.drop_last().update(s, removals[s] + 1));
    } else {
        assert(updated.drop_last() =~= removals.drop_last());
    }
}

/// The set has at most one slot that holds no value and is not free for each
/// `usize::MAX + 1` values that were removed.
pub proof fn law_slots_bounded_by_removals<T>(m: SparseSetModel<T>)
    requires
        m.valid(),
    ensures
        (m.removals.len() - m.entries.len() - m.free.len()) * (MAX_EPOCH + 1) <= total(m.removals),
{
    law_slots_accounted_for(m);
    lemma_exhausted_within_total(m.removals);
}

proof fn lemma_exhausted_within_total(removals: Seq<nat>)
    ensures
        exhausted_slots(removals).finite(),
        exhausted_slots(removals).len() * (MAX_EPOCH + 1) <= total(removals),
    decreases removals.len(),
{
    if removals.len() == 0 {
        assert(exhausted_slots(removals) =~= Set::empty());
    } else {
        let rest = removals.drop_last();
        let last = removals.len() - 1;
        lemma_exhausted_within_total(rest);
        assert forall|s: int| 0 <= s < last implies rest[s] == removals[s] by {}
        if removals[last] == MAX_EPOCH + 1 {
            assert(exhausted_slots(removals) =~= exhausted_slots(rest).insert(last));
            let count = exhausted_slots(rest).len();
            assert((count + 1) * (MAX_EPOCH + 1) == count * (MAX_EPOCH + 1) + (MAX_EPOCH + 1))
                by (nonlinear_arith);
        } else {
            assert(exhausted_slots(removals) =~= exhausted_slots(rest));
        }
    }
}

} // verus!
