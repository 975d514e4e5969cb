//! Cursor navigation, most pointedly the synthesized
//! less-than-or-equal searches over keys and duplicate values.

use lmdb_rs::database::DB_ALLOW_DUPS;
use lmdb_rs::environment::EnvBuilder;
use lmdb_rs::error::MdbError;

/// A 4-byte little-endian key or value.
fn le(n: u32) -> Vec<u8> {
    vec![n as u8, (n >> 8) as u8, (n >> 16) as u8, (n >> 24) as u8]
}

#[test]
fn test_cursor_le() {
    let mut env = EnvBuilder::new().max_dbs(5).open("db", 0o777).unwrap();
    let db = env.get_default_db(0).unwrap();
    let mut txn = env.new_transaction().unwrap();

    let mut cursor = db.new_cursor(&txn).unwrap();
    // Before any data the search reports not-found.
    assert!(cursor.move_to_lte_key(&le(10), &txn).is_err());

    db.set(&le(10), &b"one".to_vec(), &mut txn).unwrap();
    db.set(&le(20), &b"two".to_vec(), &mut txn).unwrap();

    // Between two keys: the lower one answers.
    assert!(cursor.move_to_lte_key(&le(15), &txn).is_ok());
    assert_eq!(cursor.get(&txn).unwrap(), (le(10), b"one".to_vec()));

    // Exactly on a key: that key answers.
    assert!(cursor.move_to_lte_key(&le(20), &txn).is_ok());
    assert_eq!(cursor.get(&txn).unwrap(), (le(20), b"two".to_vec()));

    // Past every key: the greatest key answers.
    assert!(cursor.move_to_lte_key(&le(25), &txn).is_ok());
    assert_eq!(cursor.get(&txn).unwrap(), (le(20), b"two".to_vec()));

    // Before every key: not-found.
    assert!(matches!(
        cursor.move_to_lte_key(&le(5), &txn),
        Err(MdbError::NotFound)
    ));
}

#[test]
fn test_cursor_le_dup() {
    let mut env = EnvBuilder::new().max_dbs(5).open("db", 0o777).unwrap();
    let db = env.create_db("test_le_dup", DB_ALLOW_DUPS).unwrap();
    let mut txn = env.new_transaction().unwrap();

    let mut cursor = db.new_cursor(&txn).unwrap();

    db.set(&le(10), &le(101), &mut txn).unwrap();
    db.set(&le(10), &le(102), &mut txn).unwrap();
    db.set(&le(20), &le(201), &mut txn).unwrap();
    db.set(&le(20), &le(202), &mut txn).unwrap();

    assert!(cursor.move_to_lte_key_first_item(&le(15), &txn).is_ok());
    assert_eq!(cursor.get(&txn).unwrap(), (le(10), le(101)));

    assert!(cursor.move_to_lte_key_first_item(&le(20), &txn).is_ok());
    assert_eq!(cursor.get(&txn).unwrap(), (le(20), le(201)));

    assert!(cursor.move_to_lte_key_first_item(&le(25), &txn).is_ok());
    assert_eq!(cursor.get(&txn).unwrap(), (le(20), le(201)));

    assert!(cursor.move_to_lte_key_and_item(&le(10), &le(102), &txn).is_ok());
    assert_eq!(cursor.get(&txn).unwrap(), (le(10), le(102)));

    assert!(cursor.move_to_lte_key_and_item(&le(10), &le(103), &txn).is_ok());
    assert_eq!(cursor.get(&txn).unwrap(), (le(10), le(102)));

    assert!(cursor.move_to_lte_key_and_item(&le(12), &le(103), &txn).is_ok());
    assert_eq!(cursor.get(&txn).unwrap(), (le(10), le(102)));

    assert!(cursor.move_to_lte_key_and_item(&le(12), &le(102), &txn).is_ok());
    assert_eq!(cursor.get(&txn).unwrap(), (le(10), le(102)));
}

#[test]
fn test_cursor_ge_dup() {
    let mut env = EnvBuilder::new().max_dbs(5).open("db", 0o777).unwrap();
    let db = env.create_db("test_ge_dup", DB_ALLOW_DUPS).unwrap();
    let mut txn = env.new_transaction().unwrap();

    let mut cursor = db.new_cursor(&txn).unwrap();

    db.set(&le(10), &le(100), &mut txn).unwrap();
    db.set(&le(10), &le(110), &mut txn).unwrap();
    db.set(&le(20), &le(200), &mut txn).unwrap();
    db.set(&le(20), &le(210), &mut txn).unwrap();

    // Forward duplicate search: the first value at least the target.
    assert!(cursor.move_to_gte_item(&le(10), &le(99), &txn).is_ok());
    assert_eq!(cursor.get(&txn).unwrap(), (le(10), le(100)));

    assert!(cursor.move_to_gte_item(&le(10), &le(105), &txn).is_ok());
    assert_eq!(cursor.get(&txn).unwrap(), (le(10), le(110)));

    assert!(cursor.move_to_gte_item(&le(20), &le(105), &txn).is_ok());
    assert_eq!(cursor.get(&txn).unwrap(), (le(20), le(200)));

    // The inverse-direction search: the last value at most the target.
    assert!(cursor.move_to_lte_item(&le(20), &le(205), &txn).is_ok());
    assert_eq!(cursor.get(&txn).unwrap(), (le(20), le(200)));

    // Target below every duplicate: not-found, by design.
    assert!(matches!(
        cursor.move_to_lte_item(&le(20), &le(199), &txn),
        Err(MdbError::NotFound)
    ));
    // Target above every duplicate: the last one answers.
    assert!(cursor.move_to_lte_item(&le(20), &le(215), &txn).is_ok());
    assert_eq!(cursor.get(&txn).unwrap(), (le(20), le(210)));

    // The two searches at an exact value agree.
    assert!(cursor.move_to_gte_item(&le(10), &le(110), &txn).is_ok());
    assert_eq!(cursor.get(&txn).unwrap(), (le(10), le(110)));
    assert!(cursor.move_to_lte_item(&le(10), &le(110), &txn).is_ok());
    assert_eq!(cursor.get(&txn).unwrap(), (le(10), le(110)));
}

#[test]
fn test_cursors() {
    let mut env = EnvBuilder::new().max_dbs(5).open("db", 0o777).unwrap();
    let db = env.get_default_db(DB_ALLOW_DUPS).unwrap();
    let mut txn = env.new_transaction().unwrap();

    let test_key1 = b"key1".to_vec();
    let test_key2 = b"key2".to_vec();
    let test_values: Vec<Vec<u8>> = vec![
        b"value1".to_vec(),
        b"value2".to_vec(),
        b"value3".to_vec(),
        b"value4".to_vec(),
    ];

    assert!(db.get(&test_key1, &txn).is_err(), "key should not exist yet");

    for t in test_values.iter() {
        db.set(&test_key1, t, &mut txn).unwrap();
        db.set(&test_key2, t, &mut txn).unwrap();
    }

    let mut cursor = db.new_cursor(&txn).unwrap();
    assert!(cursor.move_to_first(&txn).is_ok());

    assert!(cursor.move_to_key(&test_key1, &txn).is_ok());
    assert_eq!(cursor.item_count(&txn).unwrap(), 4);

    assert!(cursor.del_item(&mut txn).is_ok());
    assert_eq!(cursor.item_count(&txn).unwrap(), 3);

    assert!(cursor.move_to_key(&test_key1, &txn).is_ok());
    let new_value = b"value0".to_vec();
    assert!(cursor.replace(&new_value, &mut txn).is_ok());
    let (_, v) = cursor.get(&txn).unwrap();
    assert_eq!(v, new_value);

    assert!(cursor.del_all(&mut txn).is_ok());
    assert!(cursor.move_to_key(&test_key1, &txn).is_err());
    assert!(cursor.move_to_key(&test_key2, &txn).is_ok());
}

#[test]
fn test_cursor_item_manip() {
    let mut env = EnvBuilder::new().max_dbs(5).open("db", 0o777).unwrap();
    let db = env.get_default_db(DB_ALLOW_DUPS).unwrap();
    let mut txn = env.new_transaction().unwrap();

    let test_key1 = b"key1".to_vec();
    db.set(&test_key1, &le(3), &mut txn).unwrap();

    let mut cursor = db.new_cursor(&txn).unwrap();
    assert!(cursor.move_to_key(&test_key1, &txn).is_ok());

    let mut values: Vec<Vec<u8>> = Vec::new();
    let mut it = db.item_iter(&test_key1, &txn).unwrap();
    while let Some(cv) = it.next(&txn) {
        values.push(cv.get_value().clone());
    }
    assert_eq!(values, vec![le(3)]);

    assert!(cursor.add_item(&le(4), &mut txn).is_ok());
    assert!(cursor.add_item(&le(5), &mut txn).is_ok());

    let mut values: Vec<Vec<u8>> = Vec::new();
    let mut it = db.item_iter(&test_key1, &txn).unwrap();
    while let Some(cv) = it.next(&txn) {
        values.push(cv.get_value().clone());
    }
    assert_eq!(values, vec![le(3), le(4), le(5)]);

    // The cursor stands on the added item; replace it in place.
    assert!(cursor.replace(&le(6), &mut txn).is_ok());
    let mut values: Vec<Vec<u8>> = Vec::new();
    let mut it = db.item_iter(&test_key1, &txn).unwrap();
    while let Some(cv) = it.next(&txn) {
        values.push(cv.get_value().clone());
    }
    assert_eq!(values, vec![le(3), le(4), le(6)]);
}

#[test]
fn test_cursor_walk_both_ways() {
    let mut env = EnvBuilder::new().open("db", 0o777).unwrap();
    let db = env.get_default_db(DB_ALLOW_DUPS).unwrap();
    let mut txn = env.new_transaction().unwrap();
    db.set(&le(1), &le(11), &mut txn).unwrap();
    db.set(&le(1), &le(12), &mut txn).unwrap();
    db.set(&le(2), &le(21), &mut txn).unwrap();

    let mut cursor = db.new_cursor(&txn).unwrap();
    assert!(cursor.move_to_first(&txn).is_ok());
    assert_eq!(cursor.get(&txn).unwrap(), (le(1), le(11)));
    assert!(cursor.move_to_next(&txn).is_ok());
    assert_eq!(cursor.get(&txn).unwrap(), (le(1), le(12)));
    assert!(cursor.move_to_next(&txn).is_ok());
    assert_eq!(cursor.get(&txn).unwrap(), (le(2), le(21)));
    assert!(cursor.move_to_next(&txn).is_err());

    assert!(cursor.move_to_prev(&txn).is_ok());
    assert_eq!(cursor.get(&txn).unwrap(), (le(1), le(12)));
    assert!(cursor.move_to_prev_item(&txn).is_ok());
    assert_eq!(cursor.get(&txn).unwrap(), (le(1), le(11)));
    assert!(cursor.move_to_prev_key(&txn).is_err());

    assert!(cursor.move_to_last(&txn).is_ok());
    assert_eq!(cursor.get(&txn).unwrap(), (le(2), le(21)));
    assert!(cursor.move_to_prev_key_dup(&txn).is_ok());
    assert_eq!(cursor.get(&txn).unwrap(), (le(1), le(11)));
    assert!(cursor.move_to_last_item(&txn).is_ok());
    assert_eq!(cursor.get(&txn).unwrap(), (le(1), le(12)));
    assert!(cursor.move_to_first_item(&txn).is_ok());
    assert_eq!(cursor.get(&txn).unwrap(), (le(1), le(11)));
    assert!(cursor.move_to_next_key(&txn).is_ok());
    assert_eq!(cursor.get(&txn).unwrap(), (le(2), le(21)));
}

#[test]
fn test_cursor_gte_key_and_item() {
    let mut env = EnvBuilder::new().open("db", 0o777).unwrap();
    let db = env.get_default_db(DB_ALLOW_DUPS).unwrap();
    let mut txn = env.new_transaction().unwrap();
    db.set(&le(10), &le(100), &mut txn).unwrap();
    db.set(&le(10), &le(110), &mut txn).unwrap();
    db.set(&le(20), &le(200), &mut txn).unwrap();

    let mut cursor = db.new_cursor(&txn).unwrap();
    assert!(cursor.move_to_gte_key_and_item(&le(5), &le(105), &txn).is_ok());
    assert_eq!(cursor.get(&txn).unwrap(), (le(10), le(110)));
    assert!(cursor.move_to_gte_key_and_item(&le(15), &le(0), &txn).is_ok());
    assert_eq!(cursor.get(&txn).unwrap(), (le(20), le(200)));
    assert!(cursor.move_to_gte_key_and_item(&le(25), &le(0), &txn).is_err());
}

#[test]
fn test_cursor_unpositioned_reads_fail() {
    let mut env = EnvBuilder::new().open("db", 0o777).unwrap();
    let db = env.get_default_db(0).unwrap();
    let mut txn = env.new_transaction().unwrap();
    db.set(&le(1), &le(2), &mut txn).unwrap();
    let mut cursor = db.new_cursor(&txn).unwrap();
    // Reading before any positioning is an invalid argument, as the
    // engine reports it.
    match cursor.get(&txn) {
        Err(MdbError::Other(code, _)) => assert_eq!(code, lmdb_rs::error::EINVAL),
        _ => panic!("expected an invalid-argument report"),
    }
    assert!(cursor.item_count(&txn).is_err());
}

#[test]
fn test_cursor_in_txns() {
    let mut env = EnvBuilder::new().max_dbs(5).open("db", 0o777).unwrap();

    {
        let db = env.create_db("test1", DB_ALLOW_DUPS).unwrap();
        let txn = env.new_transaction().unwrap();
        assert!(db.new_cursor(&txn).is_ok());
        assert!(txn.commit(&mut env).is_ok());
    }

    {
        let db = env.create_db("test1", DB_ALLOW_DUPS).unwrap();
        let txn = env.new_transaction().unwrap();
        assert!(db.new_cursor(&txn).is_ok());
        assert!(txn.commit(&mut env).is_ok());
    }
}
