//! Range iteration: the bound conventions of each policy and the
//! exact sequences they yield.

use lmdb_rs::database::{DB_ALLOW_DUPS};
use lmdb_rs::environment::EnvBuilder;
use lmdb_rs::iter::{CursorIterator, IterateCursor};
use lmdb_rs::transaction::Txn;

/// A 4-byte little-endian key or value.
fn le(n: u32) -> Vec<u8> {
    vec![n as u8, (n >> 8) as u8, (n >> 16) as u8, (n >> 24) as u8]
}

/// Drain an iterator into its values.
fn values<I: IterateCursor, T: Txn>(mut it: CursorIterator<I>, txn: &T) -> Vec<Vec<u8>> {
    let mut out: Vec<Vec<u8>> = Vec::new();
    while let Some(cv) = it.next(txn) {
        out.push(cv.get_value().clone());
    }
    out
}

#[test]
fn test_keyrange_to() {
    let mut env = EnvBuilder::new().open("db", 0o777).unwrap();
    let db = env.get_default_db(0).unwrap();
    let keys: Vec<u32> = vec![1, 2, 3];
    let vals: Vec<u32> = vec![5, 6, 7];

    let mut txn = env.new_transaction().unwrap();
    for (k, v) in keys.iter().zip(vals.iter()) {
        db.set(&le(*k), &le(*v), &mut txn).unwrap();
    }
    txn.commit(&mut env).unwrap();

    let txn = env.get_reader().unwrap();
    // The upper bound is excluded.
    let it = db.keyrange_to(&le(3), &txn).unwrap();
    assert_eq!(values(it, &txn), vec![le(5), le(6)]);
}

#[test]
fn test_keyrange_to_init_cursor() {
    // An upper bound below the smallest key yields an empty range.
    let mut env = EnvBuilder::new().open("db", 0o777).unwrap();
    let db = env.get_default_db(0).unwrap();
    let recs: Vec<(u32, u32)> = vec![(10, 50), (11, 60), (12, 70)];

    let mut txn = env.new_transaction().unwrap();
    for (k, v) in recs.iter() {
        db.set(&le(*k), &le(*v), &mut txn).unwrap();
    }
    txn.commit(&mut env).unwrap();

    let txn = env.get_reader().unwrap();
    let it = db.keyrange_to(&le(1), &txn).unwrap();
    assert_eq!(values(it, &txn), Vec::<Vec<u8>>::new());
}

#[test]
fn test_keyrange_from() {
    let mut env = EnvBuilder::new().open("db", 0o777).unwrap();
    let db = env.get_default_db(0).unwrap();
    let keys: Vec<u32> = vec![1, 2, 3];
    let vals: Vec<u32> = vec![5, 6, 7];

    let mut txn = env.new_transaction().unwrap();
    for (k, v) in keys.iter().zip(vals.iter()) {
        db.set(&le(*k), &le(*v), &mut txn).unwrap();
    }
    txn.commit(&mut env).unwrap();

    let txn = env.get_reader().unwrap();
    // The lower bound is included.
    let it = db.keyrange_from(&le(2), &txn).unwrap();
    assert_eq!(values(it, &txn), vec![le(6), le(7)]);
}

#[test]
fn test_keyrange_from_init_cursor() {
    // A lower bound above the greatest key yields an empty range.
    let mut env = EnvBuilder::new().open("db", 0o777).unwrap();
    let db = env.get_default_db(0).unwrap();
    let recs: Vec<(u32, u32)> = vec![(10, 50), (11, 60), (12, 70)];

    let mut txn = env.new_transaction().unwrap();
    for (k, v) in recs.iter() {
        db.set(&le(*k), &le(*v), &mut txn).unwrap();
    }
    txn.commit(&mut env).unwrap();

    let txn = env.get_reader().unwrap();
    let it = db.keyrange_from(&le(13), &txn).unwrap();
    assert_eq!(values(it, &txn), Vec::<Vec<u8>>::new());
}

#[test]
fn test_keyrange() {
    let mut env = EnvBuilder::new().open("db", 0o777).unwrap();
    let db = env.get_default_db(DB_ALLOW_DUPS).unwrap();
    let keys: Vec<u32> = vec![1, 2, 3, 4, 5, 6];
    let vals: Vec<u32> = vec![10, 11, 12, 13, 14, 15];

    let mut txn = env.new_transaction().unwrap();
    for (k, v) in keys.iter().zip(vals.iter()) {
        db.set(&le(*k), &le(*v), &mut txn).unwrap();
    }
    txn.commit(&mut env).unwrap();

    let txn = env.get_reader().unwrap();
    // Both ends are included.
    let it = db.keyrange(&le(2), &le(4), &txn).unwrap();
    assert_eq!(values(it, &txn), vec![le(11), le(12), le(13)]);
}

#[test]
fn test_keyrange_init_cursor() {
    // A range entirely outside the stored keys yields no element,
    // below or above the data.
    let mut env = EnvBuilder::new().open("db", 0o777).unwrap();
    let db = env.get_default_db(DB_ALLOW_DUPS).unwrap();
    let keys: Vec<u32> = vec![1, 2, 3, 4, 5, 6];
    let vals: Vec<u32> = vec![10, 11, 12, 13, 14, 15];

    let mut txn = env.new_transaction().unwrap();
    for (k, v) in keys.iter().zip(vals.iter()) {
        db.set(&le(*k), &le(*v), &mut txn).unwrap();
    }
    txn.commit(&mut env).unwrap();

    let txn = env.get_reader().unwrap();
    let it = db.keyrange(&le(0), &le(0), &txn).unwrap();
    assert_eq!(values(it, &txn), Vec::<Vec<u8>>::new());

    let it = db.keyrange(&le(10), &le(20), &txn).unwrap();
    assert!(values(it, &txn).is_empty());
}

#[test]
fn test_keyrange_from_to() {
    let mut env = EnvBuilder::new().open("db", 0o777).unwrap();
    let db = env.get_default_db(DB_ALLOW_DUPS).unwrap();
    let recs: Vec<(u32, u32)> = vec![(10, 11), (20, 21), (30, 31), (40, 41), (50, 51)];

    let mut txn = env.new_transaction().unwrap();
    for (k, v) in recs.iter() {
        db.set(&le(*k), &le(*v), &mut txn).unwrap();
    }
    txn.commit(&mut env).unwrap();

    let txn = env.get_reader().unwrap();
    // The upper bound is excluded here.
    let it = db.keyrange_from_to(&le(20), &le(40), &txn).unwrap();
    assert_eq!(values(it, &txn), vec![le(21), le(31)]);
}

#[test]
fn test_full_scan_skips_duplicates() {
    // A full scan yields one pair per key: the first value of each.
    let mut env = EnvBuilder::new().open("db", 0o777).unwrap();
    let db = env.get_default_db(DB_ALLOW_DUPS).unwrap();
    let mut txn = env.new_transaction().unwrap();
    db.set(&le(1), &le(11), &mut txn).unwrap();
    db.set(&le(1), &le(12), &mut txn).unwrap();
    db.set(&le(2), &le(21), &mut txn).unwrap();
    txn.commit(&mut env).unwrap();

    let txn = env.get_reader().unwrap();
    let it = db.iter(&txn).unwrap();
    assert_eq!(values(it, &txn), vec![le(11), le(21)]);
}

#[test]
fn test_item_iter() {
    let mut env = EnvBuilder::new().open("db", 0o777).unwrap();
    let db = env.get_default_db(DB_ALLOW_DUPS).unwrap();
    let mut txn = env.new_transaction().unwrap();

    let test_key1 = b"key1".to_vec();
    let test_data1 = b"value1".to_vec();
    let test_data2 = b"value2".to_vec();
    let test_key2 = b"key2".to_vec();
    let test_key3 = b"key3".to_vec();

    db.set(&test_key1, &test_data1, &mut txn).unwrap();
    db.set(&test_key1, &test_data2, &mut txn).unwrap();
    db.set(&test_key2, &test_data1, &mut txn).unwrap();

    let it = db.item_iter(&test_key1, &txn).unwrap();
    assert_eq!(values(it, &txn), vec![test_data1.clone(), test_data2.clone()]);

    let it = db.item_iter(&test_key2, &txn).unwrap();
    assert_eq!(values(it, &txn), vec![test_data1.clone()]);

    let it = db.item_iter(&test_key3, &txn).unwrap();
    assert_eq!(values(it, &txn).len(), 0);
}

#[test]
fn test_iter_yields_pairs() {
    let mut env = EnvBuilder::new().open("db", 0o777).unwrap();
    let db = env.get_default_db(0).unwrap();
    let mut txn = env.new_transaction().unwrap();
    let recs: Vec<(u32, u32)> = vec![(10, 11), (11, 12), (12, 13), (13, 14)];
    for (k, v) in recs.iter() {
        db.set(&le(*k), &le(*v), &mut txn).unwrap();
    }
    txn.commit(&mut env).unwrap();

    let reader = env.get_reader().unwrap();
    let mut it = db.iter(&reader).unwrap();
    let mut kvs: Vec<(Vec<u8>, Vec<u8>)> = Vec::new();
    while let Some(cv) = it.next(&reader) {
        let (k, v) = cv.get();
        kvs.push((k.clone(), v.clone()));
    }
    let expected: Vec<(Vec<u8>, Vec<u8>)> =
        recs.iter().map(|&(k, v)| (le(k), le(v))).collect();
    assert_eq!(kvs, expected);
}
