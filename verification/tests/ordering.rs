//! The key orderings: exact comparisons, and iteration under an
//! installed custom order.

use lmdb_rs::database::DB_ALLOW_DUPS;
use lmdb_rs::environment::EnvBuilder;
use lmdb_rs::error::MdbError;
use lmdb_rs::order::{key_compare, KeyOrder};

/// A 4-byte little-endian signed integer.
fn le(n: i32) -> Vec<u8> {
    let u = n as u32;
    vec![u as u8, (u >> 8) as u8, (u >> 16) as u8, (u >> 24) as u8]
}

#[test]
fn test_lexical_compare() {
    let o = KeyOrder::Lexical;
    assert_eq!(key_compare(o, &vec![1u8, 2], &vec![1u8, 2]), 0);
    assert_eq!(key_compare(o, &vec![1u8, 2], &vec![1u8, 3]), -1);
    assert_eq!(key_compare(o, &vec![2u8], &vec![1u8, 9]), 1);
    // A strict prefix sorts first.
    assert_eq!(key_compare(o, &vec![1u8], &vec![1u8, 0]), -1);
    assert_eq!(key_compare(o, &vec![1u8, 0], &vec![1u8]), 1);
    assert_eq!(key_compare(o, &vec![], &vec![0u8]), -1);
    assert_eq!(key_compare(o, &Vec::new(), &Vec::new()), 0);
}

#[test]
fn test_odd_negated_compare() {
    let o = KeyOrder::OddNegated;
    // Odd values sort as their negation: 3 becomes -3, below 2.
    assert_eq!(key_compare(o, &le(3), &le(2)), -1);
    assert_eq!(key_compare(o, &le(5), &le(3)), -1);
    assert_eq!(key_compare(o, &le(2), &le(4)), -1);
    assert_eq!(key_compare(o, &le(3), &le(3)), 0);
    // -3 stays -3 after negating twice... it is odd, so it becomes 3,
    // above 2.
    assert_eq!(key_compare(o, &le(-3), &le(2)), 1);
    // Keys of other lengths fall back before 4-byte keys.
    assert_eq!(key_compare(o, &vec![1u8], &le(0)), -1);
    assert_eq!(key_compare(o, &le(0), &vec![1u8]), 1);
    assert_eq!(key_compare(o, &vec![1u8], &vec![2u8]), -1);
}

#[test]
fn test_compare() {
    // A comparator that treats odd integers as negative, installed
    // before first use, reorders full-scan iteration accordingly.
    let mut env = EnvBuilder::new().open("db", 0o777).unwrap();
    let db = env.get_default_db(0).unwrap();
    let mut txn = env.new_transaction().unwrap();
    let val = le(0);
    db.set_compare(KeyOrder::OddNegated, &mut txn).unwrap();
    db.set(&le(2), &val, &mut txn).unwrap();
    db.set(&le(3), &val, &mut txn).unwrap();
    txn.commit(&mut env).unwrap();

    let mut txn = env.new_transaction().unwrap();
    db.set(&le(4), &val, &mut txn).unwrap();
    db.set(&le(5), &val, &mut txn).unwrap();
    txn.commit(&mut env).unwrap();

    let txn = env.new_transaction().unwrap();
    let mut it = db.iter(&txn).unwrap();
    let mut keys: Vec<Vec<u8>> = Vec::new();
    while let Some(cv) = it.next(&txn) {
        keys.push(cv.get_key().clone());
    }
    assert_eq!(keys, vec![le(5), le(3), le(2), le(4)]);
}

#[test]
fn test_dupsort() {
    // The same comparator installed for duplicate values reorders the
    // values under one key.
    let mut env = EnvBuilder::new().open("db", 0o777).unwrap();
    let db = env.get_default_db(DB_ALLOW_DUPS).unwrap();
    let mut txn = env.new_transaction().unwrap();
    let key = le(0);
    db.set_dupsort(KeyOrder::OddNegated, &mut txn).unwrap();
    db.set(&key, &le(2), &mut txn).unwrap();
    db.set(&key, &le(3), &mut txn).unwrap();
    txn.commit(&mut env).unwrap();

    let mut txn = env.new_transaction().unwrap();
    db.set(&key, &le(4), &mut txn).unwrap();
    db.set(&key, &le(5), &mut txn).unwrap();
    txn.commit(&mut env).unwrap();

    let txn = env.new_transaction().unwrap();
    let mut it = db.item_iter(&key, &txn).unwrap();
    let mut vals: Vec<Vec<u8>> = Vec::new();
    while let Some(cv) = it.next(&txn) {
        vals.push(cv.get_value().clone());
    }
    assert_eq!(vals, vec![le(5), le(3), le(2), le(4)]);
}

#[test]
fn test_compare_refused_after_data() {
    // Installing an order after data access is refused, where the
    // engine would corrupt the sort order instead.
    let mut env = EnvBuilder::new().open("db", 0o777).unwrap();
    let db = env.get_default_db(0).unwrap();
    let mut txn = env.new_transaction().unwrap();
    db.set(&le(1), &le(0), &mut txn).unwrap();
    match db.set_compare(KeyOrder::OddNegated, &mut txn) {
        Err(MdbError::Other(code, _)) => assert_eq!(code, lmdb_rs::error::EINVAL),
        _ => panic!("expected the install to be refused"),
    }
}

#[test]
fn test_conversion_to_vecu8() {
    let mut env = EnvBuilder::new().open("db", 0o777).unwrap();
    let db = env.get_default_db(0).unwrap();
    let rec: (i32, Vec<u8>) = (10, vec![1, 2, 3, 4, 5]);

    let mut tx = env.new_transaction().unwrap();
    db.set(&le(rec.0), &rec.1, &mut tx).unwrap();
    tx.commit(&mut env).unwrap();

    let tx = env.new_transaction().unwrap();
    let xs: Vec<u8> = db.get(&le(rec.0), &tx).unwrap();
    assert_eq!(rec.1, xs);
    tx.abort();
}
