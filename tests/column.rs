use propstore::dense::Dense;
use propstore::merge::{Accumulate, AddUntil, Identity};

#[test]
fn test_set_get() {
    let prop = Dense::<u64, i64, (), Identity>::new(Identity);
    let mut prop = prop;
    prop.set(&1, Some(&1));
    prop.set(&2, Some(&2));
    prop.set(&3, Some(&3));
    assert_eq!(prop.get(&1), Some(1));
    assert_eq!(prop.get(&2), Some(2));
    assert_eq!(prop.get(&3), Some(3));
    prop.set(&1, Some(&2));
    assert_eq!(prop.get(&1), Some(2));

    assert_eq!(prop.get(&4), None);
}

#[test]
fn prop_test_modify_with() {
    let mock_i64_add = |old: i64| old + 1;

    let mut prop = Dense::<u64, i64, (), Identity>::new(Identity);
    prop.set(&1, Some(&1));
    prop.modify_with(&1, mock_i64_add);
    assert_eq!(prop.get(&1), Some(2));
}

#[test]
fn test_merge() {
    let mut prop = Dense::<u64, i64, (), Identity>::new(Identity);
    prop.set(&1, Some(&1));
    prop.merge(&1, &());
    assert_eq!(prop.get(&1), Some(1));

    let mut prop = Dense::<u64, i64, i32, Accumulate>::new(Accumulate);
    prop.set(&1, Some(&1));
    prop.merge(&1, &1);
    assert_eq!(prop.get(&1), Some(2));
    prop.merge(&1, &1);
    assert_eq!(prop.get(&1), Some(3));
    prop.merge(&1, &1000);
    assert_eq!(prop.get(&1), Some(1003));
}

#[test]
fn crud_smoke() {
    let mut c = Dense::<u64, u64, u64, Accumulate>::new(Accumulate);
    assert_eq!(c.set(&1, Some(&10)), None);
    assert_eq!(c.set(&2, Some(&20)), None);
    c.merge(&1, &5);
    assert_eq!(c.get(&1), Some(15));
    assert_eq!(c.get(&2), Some(20));
    assert_eq!(c.remove(&1), Some(15));
    assert_eq!(c.get(&1), None);
}

#[test]
fn empty_slot_reuse() {
    let mut c = Dense::<u64, u64, (), Identity>::with_capacity(0, Identity, false);
    c.set(&1, Some(&100));
    c.set(&2, Some(&200));
    let slot_of_1 = c.slot_index(&1).unwrap();
    c.set(&1, None);
    c.set(&3, Some(&300));
    assert_eq!(c.slot_index(&3), Some(slot_of_1));
    assert_eq!(c.slot_count(), 2);
    assert_eq!(c.empty_count(), 0);
    assert_eq!(c.key_count(), 2);
}

#[test]
fn merge_to_delete() {
    let mut c = Dense::<u64, u64, u64, AddUntil>::new(AddUntil { limit: 1000 });
    c.set(&1, Some(&900));
    c.merge(&1, &50);
    assert_eq!(c.get(&1), Some(950));
    c.merge(&1, &100);
    assert_eq!(c.get(&1), None);
    assert!(!c.contains_key(&1));
}

#[test]
fn many_merges_lose_no_update() {
    let mut c = Dense::<u64, u64, u64, Accumulate>::new(Accumulate);
    c.set(&1, Some(&7));
    for _ in 0..64 {
        for _ in 0..1000 {
            c.merge(&1, &1);
        }
    }
    assert_eq!(c.get(&1), Some(7 + 64000));
}

#[test]
fn merge_does_not_create() {
    let mut c = Dense::<u64, u64, u64, Accumulate>::new(Accumulate);
    c.merge(&9, &1);
    assert_eq!(c.get(&9), None);
    assert_eq!(c.key_count(), 0);
}

#[test]
fn merge_wraps_instead_of_overflowing() {
    let mut c = Dense::<u64, u64, u64, Accumulate>::new(Accumulate);
    c.set(&1, Some(&u64::MAX));
    c.merge(&1, &2);
    assert_eq!(c.get(&1), Some(1));
}

#[test]
fn set_then_clear() {
    let mut c = Dense::<u32, i32, (), Identity>::new(Identity);
    assert_eq!(c.set(&4, Some(&-4)), None);
    assert_eq!(c.get(&4), Some(-4));
    assert_eq!(c.set(&4, None), Some(-4));
    assert_eq!(c.get(&4), None);
    assert_eq!(c.set(&4, None), None);
}

#[test]
fn create_delete_unchecked_restore_counts() {
    let mut c = Dense::<u64, u64, (), Identity>::with_capacity(8, Identity, false);
    let empty = c.empty_count();
    let keys = c.key_count();
    c.create_unchecked(&5, &50);
    assert_eq!(c.read_unchecked(&5), 50);
    assert_eq!(c.update_unchecked(&5, &51), 50);
    assert_eq!(c.delete_unchecked(&5), 51);
    assert_eq!(c.empty_count(), empty);
    assert_eq!(c.key_count(), keys);
}

#[test]
fn merge_unchecked_applies_rule() {
    let mut c = Dense::<u64, u64, u64, AddUntil>::with_capacity(4, AddUntil { limit: 10 }, false);
    c.create_unchecked(&1, &3);
    c.merge_unchecked(&1, 4);
    assert_eq!(c.get(&1), Some(7));
    c.merge_unchecked(&1, 3);
    assert_eq!(c.get(&1), None);
    assert_eq!(c.empty_count(), 4);
}

#[test]
fn tick_feeds_deltas_back_through_merge() {
    let mut c = Dense::<u64, u64, u64, AddUntil>::with_capacity(4, AddUntil { limit: 100 }, false);
    c.set(&1, Some(&10));
    c.set(&2, Some(&95));
    c.set(&3, Some(&50));
    c.tick(|k: u64, v: u64, col: &Dense<u64, u64, u64, AddUntil>| {
        if k == 3 || !col.contains_key(&k) {
            None
        } else {
            Some(v / 10 + 1)
        }
    });
    assert_eq!(c.get(&1), Some(12));
    assert_eq!(c.get(&2), None);
    assert_eq!(c.get(&3), Some(50));
}

#[test]
fn durable_column_queues_records() {
    let mut c = Dense::<u64, u64, u64, Accumulate>::with_capacity(4, Accumulate, true);
    c.set(&1, Some(&10));
    c.merge(&1, &3);
    c.merge(&2, &3);
    c.modify_with(&1, |v: u64| v * 2);
    c.remove(&1);
    c.remove(&1);
    let ops: Vec<u8> = c.take_pending().iter().map(|a| a.op).collect();
    assert_eq!(ops, vec![0, 2, 1, 3]);
    assert!(c.take_pending().is_empty());
}

#[test]
fn quiet_column_queues_nothing() {
    let mut c = Dense::<u64, u64, u64, Accumulate>::with_capacity(4, Accumulate, false);
    c.set(&1, Some(&10));
    c.merge(&1, &3);
    assert!(c.take_pending().is_empty());
}

#[test]
fn tick_sees_the_column_as_it_stands() {
    let mut c = Dense::<u64, u64, u64, Accumulate>::with_capacity(4, Accumulate, false);
    c.set(&1, Some(&1));
    c.set(&2, Some(&2));
    // key 2 gets the value key 1 holds once its own delta is merged
    c.tick(|k: u64, _v: u64, col: &Dense<u64, u64, u64, Accumulate>| {
        if k == 1 {
            Some(10)
        } else {
            col.get(&1)
        }
    });
    assert_eq!(c.get(&1), Some(11));
    assert_eq!(c.get(&2), Some(13));
}
