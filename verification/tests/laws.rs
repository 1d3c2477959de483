use sparse_set::{SparseKey, SparseSet};

fn filled(values: &[u32]) -> (SparseSet<u32>, Vec<SparseKey>) {
    let mut set: SparseSet<u32> = SparseSet::new();
    let mut keys: Vec<SparseKey> = Vec::new();
    for value in values {
        keys.push(set.push(*value));
    }
    (set, keys)
}

fn values_of(set: &SparseSet<u32>) -> Vec<u32> {
    set.values().copied().collect()
}

#[test]
fn push_keeps_existing_keys_and_order() {
    let (mut set, keys) = filled(&[1, 2, 3]);
    let before: Vec<SparseKey> = set.keys().collect();
    let key = set.push(4);
    assert!(!before.contains(&key));
    for (i, k) in keys.iter().enumerate() {
        assert_eq!(set.get(*k), Some(&(i as u32 + 1)));
    }
    assert_eq!(set.get(key), Some(&4));
    assert_eq!(values_of(&set), vec![1, 2, 3, 4]);
}

#[test]
fn swap_remove_moves_the_last_value_into_the_gap() {
    let (mut set, keys) = filled(&[1, 2, 3, 4]);
    assert_eq!(set.swap_remove(keys[1]), Some(2));
    assert_eq!(values_of(&set), vec![1, 4, 3]);
    assert_eq!(set.keys().collect::<Vec<_>>(), vec![keys[0], keys[3], keys[2]]);
    assert_eq!(set.get(keys[0]), Some(&1));
    assert_eq!(set.get(keys[1]), None);
    assert_eq!(set.get(keys[2]), Some(&3));
    assert_eq!(set.get(keys[3]), Some(&4));
}

#[test]
fn swap_remove_of_the_last_value_keeps_the_others() {
    let (mut set, keys) = filled(&[1, 2, 3]);
    assert_eq!(set.swap_remove(keys[2]), Some(3));
    assert_eq!(values_of(&set), vec![1, 2]);
    assert_eq!(set.swap_remove(keys[2]), None);
    assert_eq!(values_of(&set), vec![1, 2]);
}

#[test]
fn remove_keeps_order_and_keys() {
    let (mut set, keys) = filled(&[1, 2, 3, 4]);
    assert_eq!(set.remove(keys[1]), Some(2));
    assert_eq!(values_of(&set), vec![1, 3, 4]);
    assert_eq!(set.keys().collect::<Vec<_>>(), vec![keys[0], keys[2], keys[3]]);
    assert_eq!(set.get(keys[3]), Some(&4));
    assert_eq!(set.remove(keys[1]), None);
    assert_eq!(values_of(&set), vec![1, 3, 4]);
}

#[test]
fn removed_key_stays_removed_when_its_slot_is_used_again() {
    let (mut set, keys) = filled(&[1]);
    let mut spent = vec![keys[0]];
    for value in 2..50u32 {
        let last = spent[spent.len() - 1];
        if value % 2 == 0 {
            assert_eq!(set.remove(last), Some(value - 1));
        } else {
            assert_eq!(set.swap_remove(last), Some(value - 1));
        }
        let key = set.push(value);
        for old in &spent {
            assert!(*old != key);
            assert!(!set.contains(*old));
            assert_eq!(set.get(*old), None);
            assert_eq!(set.get_mut(*old), None);
            assert_eq!(set.remove(*old), None);
            assert_eq!(set.swap_remove(*old), None);
        }
        assert_eq!(set.get(key), Some(&value));
        assert_eq!(set.size(), 1);
        spent.push(key);
    }
}

#[test]
fn freed_slots_are_used_again_before_new_ones() {
    let (mut set, keys) = filled(&[1, 2, 3]);
    set.remove(keys[0]);
    set.remove(keys[2]);
    let fourth = set.push(4);
    let fifth = set.push(5);
    // a set that never had more than three values at once has no fourth slot
    let (small, _) = filled(&[1, 2, 3]);
    assert!(!small.contains(fourth));
    assert!(!small.contains(fifth));
    assert_eq!(small.get(fourth), None);
    assert_eq!(small.get(fifth), None);
    assert_eq!(values_of(&set), vec![2, 4, 5]);
}

#[test]
fn the_slot_that_was_freed_last_is_used_first() {
    let (mut first, keys) = filled(&[1, 2]);
    first.remove(keys[0]);
    first.remove(keys[1]);
    let (mut second, other_keys) = filled(&[1, 2]);
    second.remove(other_keys[1]);
    second.push(3);
    let key = first.push(4);
    assert_eq!(second.get(key), Some(&3));
}

#[test]
fn the_two_removals_differ_in_order_only() {
    let (mut ordered, keys) = filled(&[1, 2, 3, 4, 5]);
    let mut unordered = ordered.clone();
    assert_eq!(ordered.remove(keys[0]), unordered.swap_remove(keys[0]));
    assert_eq!(values_of(&ordered), vec![2, 3, 4, 5]);
    assert_eq!(values_of(&unordered), vec![5, 2, 3, 4]);
    for key in &keys {
        assert_eq!(ordered.get(*key), unordered.get(*key));
    }
    assert_eq!(ordered.push(6), unordered.push(6));
}

#[test]
fn removing_the_value_that_was_added_last_undoes_the_addition() {
    let (mut set, _) = filled(&[1, 2]);
    let key = set.push(3);
    assert_eq!(set.remove(key), Some(3));
    assert_eq!(values_of(&set), vec![1, 2]);
    let key = set.push(4);
    assert_eq!(set.swap_remove(key), Some(4));
    assert_eq!(values_of(&set), vec![1, 2]);
}

#[test]
fn swapping_twice_restores_the_order() {
    let (mut set, keys) = filled(&[1, 2, 3, 4]);
    set.swap(keys[0], keys[2]);
    assert_eq!(values_of(&set), vec![3, 2, 1, 4]);
    for (i, key) in keys.iter().enumerate() {
        assert_eq!(set.get(*key), Some(&(i as u32 + 1)));
    }
    set.swap(keys[2], keys[0]);
    assert_eq!(values_of(&set), vec![1, 2, 3, 4]);
    set.swap(keys[3], keys[3]);
    assert_eq!(values_of(&set), vec![1, 2, 3, 4]);
    set.swap(keys[3], keys[0]);
    assert_eq!(set.remove(keys[1]), Some(2));
    assert_eq!(values_of(&set), vec![4, 3, 1]);
    assert_eq!(set.get(keys[0]), Some(&1));
    assert_eq!(set.get(keys[3]), Some(&4));
}

#[test]
fn get_mut_changes_the_value_of_its_key_only() {
    let (mut set, keys) = filled(&[1, 2, 3]);
    *set.get_mut(keys[1]).unwrap() = 20;
    assert_eq!(values_of(&set), vec![1, 20, 3]);
    assert_eq!(set.get(keys[0]), Some(&1));
    assert_eq!(set.get(keys[1]), Some(&20));
    assert_eq!(set.get(keys[2]), Some(&3));
}

#[test]
fn iterators_go_both_ways_and_meet() {
    let (set, keys) = filled(&[1, 2, 3, 4]);

    let mut values = set.values();
    assert_eq!(values.size_hint(), (4, Some(4)));
    assert_eq!(values.next(), Some(&1));
    assert_eq!(values.next_back(), Some(&4));
    assert_eq!(values.next_back(), Some(&3));
    assert_eq!(values.size_hint(), (1, Some(1)));
    assert_eq!(values.next(), Some(&2));
    assert_eq!(values.next(), None);
    assert_eq!(values.next_back(), None);

    let mut set_keys = set.keys();
    assert_eq!(set_keys.size_hint(), (4, Some(4)));
    assert_eq!(set_keys.next_back(), Some(keys[3]));
    assert_eq!(set_keys.next(), Some(keys[0]));
    assert_eq!(set_keys.rev().collect::<Vec<_>>(), vec![keys[2], keys[1]]);

    let mut pairs = set.key_values();
    assert_eq!(pairs.size_hint(), (4, Some(4)));
    assert_eq!(pairs.next(), Some((keys[0], &1)));
    assert_eq!(pairs.next_back(), Some((keys[3], &4)));
    assert_eq!(pairs.collect::<Vec<_>>(), vec![(keys[1], &2), (keys[2], &3)]);
}

#[test]
fn mutable_iteration_goes_both_ways_and_keeps_keys() {
    let (mut set, keys) = filled(&[1, 2, 3, 4]);
    {
        let mut values = set.values_mut();
        assert_eq!(values.size_hint(), (4, Some(4)));
        *values.next().unwrap() = 10;
        *values.next_back().unwrap() = 40;
        *values.next_back().unwrap() = 30;
        assert_eq!(values.size_hint(), (1, Some(1)));
        assert_eq!(values.next(), Some(&mut 2));
        assert_eq!(values.next(), None);
        assert_eq!(values.next_back(), None);
        assert_eq!(values.size_hint(), (0, Some(0)));
    }
    assert_eq!(values_of(&set), vec![10, 2, 30, 40]);
    assert_eq!(set.get(keys[0]), Some(&10));
    assert_eq!(set.get(keys[1]), Some(&2));
    assert_eq!(set.get(keys[2]), Some(&30));
    assert_eq!(set.get(keys[3]), Some(&40));
    for (i, value) in set.values_mut().rev().enumerate() {
        *value = i as u32;
    }
    assert_eq!(values_of(&set), vec![3, 2, 1, 0]);
}

#[test]
fn keys_find_the_values_in_order() {
    let (mut set, keys) = filled(&[1, 2, 3, 4, 5]);
    set.swap_remove(keys[1]);
    set.remove(keys[2]);
    set.push(6);
    let by_keys: Vec<u32> = set.keys().map(|key| *set.get(key).unwrap()).collect();
    assert_eq!(by_keys, values_of(&set));
    assert_eq!(by_keys, vec![1, 5, 4, 6]);
    assert_eq!(set.size(), 4);
}

#[test]
fn size_and_emptiness() {
    let (mut set, keys) = filled(&[1, 2]);
    assert_eq!(set.size(), 2);
    assert!(!set.is_empty());
    set.remove(keys[0]);
    set.swap_remove(keys[1]);
    assert_eq!(set.size(), 0);
    assert!(set.is_empty());
    let with_memory: SparseSet<u32> = SparseSet::with_capacity(0);
    assert!(with_memory.is_empty());
}

#[test]
fn clone_has_the_same_keys_and_a_life_of_its_own() {
    let (mut set, keys) = filled(&[1, 2, 3]);
    set.remove(keys[1]);
    let mut copy = set.clone();
    assert_eq!(values_of(&copy), vec![1, 3]);
    assert_eq!(copy.keys().collect::<Vec<_>>(), set.keys().collect::<Vec<_>>());
    assert_eq!(copy.get(keys[1]), None);
    let key = copy.push(4);
    assert_eq!(set.size(), 2);
    assert!(!set.contains(key));
    assert_eq!(set.push(5), key);
    assert_eq!(copy.get(key), Some(&4));
    assert_eq!(set.get(key), Some(&5));
}

#[test]
fn key_with_a_slot_that_the_set_lacks_is_not_contained() {
    let (_, keys) = filled(&[1, 2, 3]);
    let (small, _) = filled(&[1]);
    assert!(small.contains(keys[0]));
    assert!(!small.contains(keys[1]));
    assert!(!small.contains(keys[2]));
}

#[test]
fn a_key_takes_two_words() {
    assert_eq!(std::mem::size_of::<SparseKey>(), 2 * std::mem::size_of::<usize>());
}

#[test]
fn values_are_dropped_once() {
    let counter = std::rc::Rc::new(());
    let mut set: SparseSet<std::rc::Rc<()>> = SparseSet::new();
    let first = set.push(counter.clone());
    let second = set.push(counter.clone());
    set.push(counter.clone());
    assert_eq!(std::rc::Rc::strong_count(&counter), 4);
    assert!(set.remove(first).is_some());
    assert!(set.swap_remove(second).is_some());
    assert_eq!(std::rc::Rc::strong_count(&counter), 2);
    drop(set);
    assert_eq!(std::rc::Rc::strong_count(&counter), 1);
}
