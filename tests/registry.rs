use propstore::basic::PropTag;
use propstore::db::Database;
use propstore::dense::Dense;
use propstore::merge::{Accumulate, AddUntil};

#[test]
fn create_prop_is_idempotent() {
    let mut db = Database::<Dense<u64, u64, u64, AddUntil>>::new();
    let hp = PropTag::new("hp");
    let i = db.create_prop(hp, Dense::new(AddUntil { limit: 10 }));
    let j = db.create_prop(PropTag::new("mp"), Dense::new(AddUntil { limit: 20 }));
    assert_eq!((i, j), (0, 1));
    let again = db.create_prop(hp, Dense::new(AddUntil { limit: 99 }));
    assert_eq!(again, 0);
    assert_eq!(db.prop_count(), 2);
    assert_eq!(db.find(&PropTag::new("mp")), Some(1));
    assert_eq!(db.find(&PropTag::new("xp")), None);
    assert!(db.get_prop(&PropTag::new("xp")).is_none());
    assert_eq!(db.get_prop(&hp).unwrap().slot_count(), 4096);
}

#[test]
fn registry_of_counters() {
    let mut db = Database::<Dense<u64, u64, u64, Accumulate>>::new();
    db.create_prop(PropTag::new("gold"), Dense::with_capacity(2, Accumulate, false));
    let c = db.get_prop(&PropTag::new("gold")).unwrap();
    assert_eq!(c.key_count(), 0);
    assert_eq!(c.slot_count(), 2);
}
