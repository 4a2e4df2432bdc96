use propstore::slots::Slots;
use std::collections::BTreeSet;

#[test]
fn test_alloc() {
    let s = Slots::<u64>::with_capacity(0);
    assert_eq!(s.empty_len(), 0);

    let s = Slots::<u64>::with_capacity(1024);
    assert_eq!(s.empty_len(), 1024);

    let mut s = Slots::<u64>::with_capacity(0);
    (0..1024).into_iter().for_each(|n| {
        assert_eq!(s.allocate(1), n + 1);
        assert_eq!(s.empty_indices(), (0..=n).into_iter().collect())
    })
}

#[test]
fn test_create_read() {
    let mut s = Slots::<u64>::with_capacity(1024);
    (0..1024).into_iter().for_each(|n| {
        assert_eq!(s.create(n as u64), n);
        assert_eq!(s.empty_indices(), (n + 1..1024).into_iter().collect())
    });
    assert_eq!(s.len(), 1024);
    assert_eq!(s.empty_indices(), BTreeSet::<usize>::new());

    (0..1024).into_iter().for_each(|n| {
        assert_eq!(s.read(n), Some(n as u64));
    });
}

#[test]
fn slots_test_modify_with() {
    let double = |a: i32| a * 2;

    let mut s = Slots::<i32>::with_capacity(1024);
    (0..1024).into_iter().for_each(|n| {
        assert_eq!(s.create(n as i32), n);
        assert_eq!(s.empty_indices(), (n + 1..1024).into_iter().collect())
    });
    (0..1024).into_iter().for_each(|n| s.modify_with(n, double));
    (0..1024)
        .into_iter()
        .for_each(|n| assert_eq!(s.read(n), Some(n as i32 * 2)));
}

#[test]
fn test_swap() {
    let mut s = Slots::<i32>::with_capacity(1024);
    (0..1024).into_iter().for_each(|n| {
        assert_eq!(s.create(n as i32), n);
    });

    (0..1024).into_iter().for_each(|n| {
        assert_eq!(s.swap(n, n as i32), Some(n as i32));
    });
}

#[test]
fn create_reuses_smallest_empty_slot() {
    let mut s = Slots::<u64>::with_capacity(0);
    assert_eq!(s.create(10), 0);
    assert_eq!(s.create(11), 1);
    assert_eq!(s.create(12), 2);
    assert_eq!(s.take(2), Some(12));
    assert_eq!(s.take(0), Some(10));
    assert_eq!(s.empty_indices(), [0usize, 2].into_iter().collect());
    assert_eq!(s.create(13), 0);
    assert_eq!(s.create(14), 2);
    assert_eq!(s.create(15), 3);
    assert_eq!(s.len(), 4);
    assert_eq!(s.read(0), Some(13));
    assert_eq!(s.empty_len(), 0);
}

#[test]
fn delete_and_update_cells() {
    let mut s = Slots::<u64>::with_capacity(2);
    let i = s.create(7);
    s.update(i, 8);
    assert_eq!(s.read(i), Some(8));
    s.delete(i);
    assert_eq!(s.read(i), None);
    assert!(s.empty_indices().contains(&i));
    assert_eq!(s.empty_len(), 2);
}
