use propstore::atom::{Atom, CREATE, DELETE, MERGE, UPDATE};
use propstore::binlog::{decode_log, encode_header, encode_records, log_header, schema_tag, HEADER_LEN};
use propstore::dense::Dense;
use propstore::error::Error;
use propstore::merge::{Accumulate, Identity};

#[test]
fn test_atom() {
    let a = Atom::new(CREATE, 1i32, 2i32, ());
    let mut b = Vec::new();
    a.write_bytes(&mut b);
    assert_eq!(Atom::<i32, i32, ()>::len(), 9);
    assert_eq!(b, [0, 1, 0, 0, 0, 2, 0, 0, 0]);
    let aa = Atom::<i32, i32, ()>::read_bytes(&b, 0);
    assert_eq!(aa, a);

    let c = Atom::<i32, (), i32>::read_bytes(&b, 0);
    assert_eq!(c, Atom::new(CREATE, 1, (), 2));
}

#[test]
fn atom_layout_is_little_endian() {
    let a = Atom::new(MERGE, 0x0102u32, 0xffu8, -2i64);
    let mut b = Vec::new();
    a.write_bytes(&mut b);
    assert_eq!(b, [2, 0x02, 0x01, 0, 0, 0xff, 0xfe, 0xff, 0xff, 0xff, 0xff, 0xff, 0xff, 0xff]);
    assert_eq!(Atom::<u32, u8, i64>::read_bytes(&b, 0), a);
    assert_eq!(a.into_align(), (MERGE, 0x0102, 0xff, -2));
}

#[test]
fn atom_name_lists_field_types() {
    assert_eq!(Atom::<u64, u64, ()>::name(), "Atom<u64, u64, ()>");
    assert_eq!(Atom::<u64, u32, ()>::name(), "Atom<u64, u32, ()>");
}

#[test]
fn schema_tag_is_name_based_uuid() {
    let tag = schema_tag::<u64, u64, ()>();
    let expected = uuid::Uuid::new_v5(&uuid::Uuid::nil(), b"Atom<u64, u64, ()>").into_bytes();
    assert_eq!(tag, expected);
    assert_ne!(&tag[..], &b"Atom<u64, u64, ()>"[..16]);
    assert_ne!(tag, schema_tag::<u64, u32, ()>());
}

#[test]
fn header_layout() {
    let tag = [7u8; 16];
    let h = encode_header(17, &tag);
    assert_eq!(h.len(), HEADER_LEN);
    assert_eq!(&h[..4], &[17, 0, 0, 0]);
    assert_eq!(&h[4..], &tag[..]);
}

fn log_of_scenario() -> Vec<u8> {
    let mut c = Dense::<u64, u64, (), Identity>::with_capacity(16, Identity, true);
    c.set(&1, Some(&10));
    c.set(&1, Some(&11));
    c.remove(&1);
    c.set(&2, Some(&20));
    let mut bytes = log_header::<u64, u64, ()>();
    encode_records(&c.take_pending(), &mut bytes);
    bytes
}

#[test]
fn log_replay() {
    let bytes = log_of_scenario();
    let body = &bytes[HEADER_LEN..];
    assert_eq!(body.len(), 68);
    let ops: Vec<u8> = (0..4).map(|i| body[i * 17]).collect();
    assert_eq!(ops, vec![CREATE, UPDATE, DELETE, CREATE]);
    let keys: Vec<u64> = (0..4)
        .map(|i| {
            let mut k = [0u8; 8];
            k.copy_from_slice(&body[i * 17 + 1..i * 17 + 9]);
            u64::from_le_bytes(k)
        })
        .collect();
    assert_eq!(keys, vec![1, 1, 1, 2]);

    let tag = schema_tag::<u64, u64, ()>();
    let (atoms, end) = decode_log::<u64, u64, ()>(&bytes, &tag).unwrap();
    assert_eq!(end, bytes.len());
    assert_eq!(atoms.len(), 4);
    let mut fresh = Dense::<u64, u64, (), Identity>::new(Identity);
    fresh.load(&atoms);
    assert_eq!(fresh.get(&1), None);
    assert_eq!(fresh.get(&2), Some(20));
}

#[test]
fn header_mismatch() {
    let bytes = log_of_scenario();
    let copy = bytes.clone();
    let tag = schema_tag::<u64, u32, ()>();
    let r = decode_log::<u64, u32, ()>(&bytes, &tag);
    assert_eq!(r.err(), Some(Error::SchemaMismatch));
    assert_eq!(bytes, copy);
}

#[test]
fn record_width_mismatch() {
    let mut bytes = log_of_scenario();
    bytes[0] = 16;
    let tag = schema_tag::<u64, u64, ()>();
    assert_eq!(decode_log::<u64, u64, ()>(&bytes, &tag).err(), Some(Error::SchemaMismatch));
}

#[test]
fn short_log_is_unreadable() {
    let tag = schema_tag::<u64, u64, ()>();
    let header = log_header::<u64, u64, ()>();
    assert_eq!(decode_log::<u64, u64, ()>(&header[..19], &tag).err(), Some(Error::LogIO));
    assert_eq!(decode_log::<u64, u64, ()>(&[], &tag).err(), Some(Error::LogIO));
    let (atoms, end) = decode_log::<u64, u64, ()>(&header, &tag).unwrap();
    assert!(atoms.is_empty());
    assert_eq!(end, HEADER_LEN);
}

#[test]
fn partial_tail_stops_replay() {
    let mut bytes = log_of_scenario();
    bytes.extend_from_slice(&[0, 3, 0, 0]);
    let tag = schema_tag::<u64, u64, ()>();
    let (atoms, end) = decode_log::<u64, u64, ()>(&bytes, &tag).unwrap();
    assert_eq!(atoms.len(), 4);
    assert_eq!(end, HEADER_LEN + 68);
}

#[test]
fn replay_reproduces_merged_column() {
    let mut c = Dense::<u64, u64, u64, Accumulate>::with_capacity(4, Accumulate, true);
    c.set(&1, Some(&1));
    c.set(&2, Some(&2));
    c.merge(&1, &40);
    c.modify_with(&2, |v: u64| v + 100);
    c.set(&3, Some(&3));
    c.remove(&3);
    let atoms = c.take_pending();
    let mut fresh = Dense::<u64, u64, u64, Accumulate>::with_capacity(0, Accumulate, false);
    fresh.load(&atoms);
    for k in 0..5u64 {
        assert_eq!(fresh.get(&k), c.get(&k));
    }
    assert_eq!(fresh.get(&1), Some(41));
    assert_eq!(fresh.get(&2), Some(102));
}

#[test]
fn load_skips_unknown_and_mismatched_records() {
    let atoms = vec![
        Atom::new(9, 1u64, 5u64, 0u64),
        Atom::new(UPDATE, 1, 5, 0),
        Atom::new(CREATE, 1, 6, 0),
        Atom::new(CREATE, 1, 7, 0),
        Atom::new(DELETE, 2, 0, 0),
        Atom::new(MERGE, 1, 0, 4),
    ];
    let mut c = Dense::<u64, u64, u64, Accumulate>::with_capacity(0, Accumulate, false);
    c.load(&atoms);
    assert_eq!(c.get(&1), Some(10));
    assert_eq!(c.key_count(), 1);
}

#[test]
fn decode_gives_back_encoded_records() {
    let atoms = vec![
        Atom::new(CREATE, 7u32, -1i64, 0u8),
        Atom::new(MERGE, 7, 0, 200),
        Atom::new(DELETE, 7, 0, 0),
    ];
    let tag = schema_tag::<u32, i64, u8>();
    let mut bytes = log_header::<u32, i64, u8>();
    encode_records(&atoms, &mut bytes);
    assert_eq!(bytes.len(), HEADER_LEN + 3 * 14);
    let (back, end) = decode_log::<u32, i64, u8>(&bytes, &tag).unwrap();
    assert_eq!(back, atoms);
    assert_eq!(end, bytes.len());
}

#[test]
fn restore_rebuilds_column_from_log_bytes() {
    let bytes = log_of_scenario();
    let (c, end) = Dense::<u64, u64, (), Identity>::restore(&bytes, Identity, true).unwrap();
    assert_eq!(end, bytes.len());
    assert_eq!(c.get(&1), None);
    assert_eq!(c.get(&2), Some(20));
    assert_eq!(c.key_count(), 1);
    assert!(Dense::<u64, u32, (), Identity>::restore(&bytes, Identity, true).is_err());
    assert_eq!(
        Dense::<u64, u64, (), Identity>::restore(&bytes[..10], Identity, true).err(),
        Some(Error::LogIO)
    );
}
