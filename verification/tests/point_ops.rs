//! Point operations through database handles: reads, writes, deletes,
//! the handle cache, and the commit/read round trip.

use lmdb_rs::database::{DB_ALLOW_DUPS};
use lmdb_rs::environment::{EnvBuilder, ENV_CREATE_READONLY, ENV_NO_MEM_INIT, ENV_NO_META_SYNC};
use lmdb_rs::error::{MdbError, EACCES, MDB_BAD_DBI, MDB_BAD_TXN};

#[test]
fn test_environment() {
    let mut env = EnvBuilder::new().max_readers(33).open("db", 0o777).unwrap();

    env.sync(true).unwrap();

    let test_flags = ENV_NO_MEM_INIT | ENV_NO_META_SYNC;
    env.set_flags(test_flags, true).unwrap();
    let new_flags = env.get_flags().unwrap();
    assert!(new_flags & test_flags == test_flags, "get flags != set flags");

    let db = env.get_default_db(0).unwrap();
    let mut txn = env.new_transaction().unwrap();

    let key = b"hello".to_vec();
    let value = b"world".to_vec();

    db.set(&key, &value, &mut txn).unwrap();
    let v = db.get(&key, &txn).unwrap();
    assert_eq!(v, value, "written and read values differ");
}

#[test]
fn test_single_values() {
    let mut env = EnvBuilder::new().max_dbs(5).open("db", 0o777).unwrap();
    let db = env.get_default_db(0).unwrap();
    let mut txn = env.new_transaction().unwrap();

    let test_key1 = b"key1".to_vec();
    let test_data1 = b"value1".to_vec();
    let test_data2 = b"value2".to_vec();

    assert!(db.get(&test_key1, &txn).is_err(), "key should not exist yet");

    assert!(db.set(&test_key1, &test_data1, &mut txn).is_ok());
    assert_eq!(db.get(&test_key1, &txn).unwrap(), test_data1);

    assert!(db.set(&test_key1, &test_data2, &mut txn).is_ok());
    assert_eq!(db.get(&test_key1, &txn).unwrap(), test_data2);

    assert!(db.del(&test_key1, &mut txn).is_ok());
    assert!(db.get(&test_key1, &txn).is_err(), "key should be deleted");
}

#[test]
fn test_multiple_values() {
    let mut env = EnvBuilder::new().max_dbs(5).open("db", 0o777).unwrap();
    let db = env.get_default_db(DB_ALLOW_DUPS).unwrap();
    let mut txn = env.new_transaction().unwrap();

    let test_key1 = b"key1".to_vec();
    let test_data1 = b"value1".to_vec();
    let test_data2 = b"value2".to_vec();

    assert!(db.get(&test_key1, &txn).is_err(), "key should not exist yet");

    assert!(db.set(&test_key1, &test_data1, &mut txn).is_ok());
    assert_eq!(db.get(&test_key1, &txn).unwrap(), test_data1);

    assert!(db.set(&test_key1, &test_data2, &mut txn).is_ok());
    // With duplicates the first value still answers a plain get.
    assert_eq!(db.get(&test_key1, &txn).unwrap(), test_data1);

    assert!(db.del_item(&test_key1, &test_data1, &mut txn).is_ok());
    assert_eq!(db.get(&test_key1, &txn).unwrap(), test_data2);

    assert!(db.del(&test_key1, &mut txn).is_ok());
    assert!(db.get(&test_key1, &txn).is_err(), "key should be gone");
}

#[test]
fn test_append_duplicate() {
    let mut env = EnvBuilder::new().max_dbs(5).open("db", 0o777).unwrap();
    let db = env.get_default_db(DB_ALLOW_DUPS).unwrap();
    let mut txn = env.new_transaction().unwrap();

    let test_key1 = b"key1".to_vec();
    let test_data1 = b"value1".to_vec();
    let test_data2 = b"value2".to_vec();

    assert!(db.append(&test_key1, &test_data1, &mut txn).is_ok());
    assert_eq!(db.get(&test_key1, &txn).unwrap(), test_data1);

    assert!(db.append_duplicate(&test_key1, &test_data2, &mut txn).is_ok());
    assert_eq!(db.get(&test_key1, &txn).unwrap(), test_data1);

    assert!(db.del_item(&test_key1, &test_data1, &mut txn).is_ok());
    assert_eq!(db.get(&test_key1, &txn).unwrap(), test_data2);

    // An out-of-order duplicate append is refused.
    match db.append_duplicate(&test_key1, &test_data1, &mut txn) {
        Err(MdbError::KeyExists) => (),
        _ => panic!("expected KeyExists"),
    }
}

#[test]
fn test_append_out_of_order_key() {
    let mut env = EnvBuilder::new().open("db", 0o777).unwrap();
    let db = env.get_default_db(0).unwrap();
    let mut txn = env.new_transaction().unwrap();

    assert!(db.append(&vec![5u8], &vec![0u8], &mut txn).is_ok());
    match db.append(&vec![3u8], &vec![0u8], &mut txn) {
        Err(MdbError::KeyExists) => (),
        _ => panic!("expected KeyExists for an out-of-order append"),
    }
}

#[test]
fn test_insert_values() {
    let mut env = EnvBuilder::new().max_dbs(5).open("db", 0o777).unwrap();
    let db = env.get_default_db(0).unwrap();
    let mut txn = env.new_transaction().unwrap();

    let test_key1 = b"key1".to_vec();
    let test_data1 = b"value1".to_vec();
    let test_data2 = b"value2".to_vec();

    assert!(db.get(&test_key1, &txn).is_err(), "key should not exist yet");

    assert!(db.set(&test_key1, &test_data1, &mut txn).is_ok());
    assert_eq!(db.get(&test_key1, &txn).unwrap(), test_data1);

    assert!(
        matches!(
            db.insert(&test_key1, &test_data2, &mut txn),
            Err(MdbError::KeyExists)
        ),
        "inserting should fail when the key exists"
    );

    assert!(db.del(&test_key1, &mut txn).is_ok());
    assert!(db.get(&test_key1, &txn).is_err(), "key should be deleted");

    assert!(db.insert(&test_key1, &test_data2, &mut txn).is_ok());
}

#[test]
fn test_write_commit_read_round_trip() {
    // A committed write is observed exactly by a later read transaction.
    let mut env = EnvBuilder::new().open("db", 0o777).unwrap();
    let db = env.get_default_db(0).unwrap();
    let mut txn = env.new_transaction().unwrap();
    let key = b"k".to_vec();
    let value = b"v".to_vec();
    db.set(&key, &value, &mut txn).unwrap();
    txn.commit(&mut env).unwrap();

    let reader = env.get_reader().unwrap();
    assert_eq!(db.get(&key, &reader).unwrap(), value);
}

#[test]
fn test_abort_discards_writes() {
    let mut env = EnvBuilder::new().open("db", 0o777).unwrap();
    let db = env.get_default_db(0).unwrap();
    let mut txn = env.new_transaction().unwrap();
    db.set(&b"k".to_vec(), &b"v".to_vec(), &mut txn).unwrap();
    txn.abort();

    let reader = env.get_reader().unwrap();
    assert!(matches!(
        db.get(&b"k".to_vec(), &reader),
        Err(MdbError::NotFound)
    ));
}

#[test]
fn test_nested_transactions() {
    let mut env = EnvBuilder::new().open("db", 0o777).unwrap();
    let db = env.get_default_db(0).unwrap();
    let mut parent = env.new_transaction().unwrap();
    db.set(&vec![1u8], &vec![10u8], &mut parent).unwrap();

    // A committed child's writes reach the parent.
    let mut child = parent.new_child().unwrap();
    db.set(&vec![2u8], &vec![20u8], &mut child).unwrap();
    child.commit_to_parent(&mut parent).unwrap();
    assert_eq!(db.get(&vec![2u8], &parent).unwrap(), vec![20u8]);

    // A dropped child's writes do not.
    let mut child2 = parent.new_child().unwrap();
    db.set(&vec![3u8], &vec![30u8], &mut child2).unwrap();
    child2.abort();
    assert!(db.get(&vec![3u8], &parent).is_err());

    parent.commit(&mut env).unwrap();
    let reader = env.get_reader().unwrap();
    assert_eq!(db.get(&vec![1u8], &reader).unwrap(), vec![10u8]);
    assert_eq!(db.get(&vec![2u8], &reader).unwrap(), vec![20u8]);
}

#[test]
fn test_writes_refused_on_reader() {
    let mut env = EnvBuilder::new().open("db", 0o777).unwrap();
    let db = env.get_default_db(0).unwrap();
    let mut reader = env.get_reader().unwrap();
    match db.set(&vec![1u8], &vec![2u8], &mut reader) {
        Err(MdbError::Other(code, _)) => assert_eq!(code, EACCES),
        _ => panic!("expected the engine's access error"),
    }
}

#[test]
fn test_stale_handle_reported() {
    let mut env = EnvBuilder::new().open("db", 0o777).unwrap();
    let _db = env.get_default_db(0).unwrap();
    let txn = env.new_transaction().unwrap();
    let bogus = lmdb_rs::database::Database::new_with_handle(99);
    match bogus.get(&vec![1u8], &txn) {
        Err(MdbError::Other(code, _)) => assert_eq!(code, MDB_BAD_DBI),
        _ => panic!("expected a stale-handle report"),
    }
}

#[test]
fn test_del_all_leaves_key_absent() {
    // Deleting all duplicate items for a key leaves it absent from get.
    let mut env = EnvBuilder::new().open("db", 0o777).unwrap();
    let db = env.get_default_db(DB_ALLOW_DUPS).unwrap();
    let mut txn = env.new_transaction().unwrap();
    let key = vec![7u8];
    db.set(&key, &vec![1u8], &mut txn).unwrap();
    db.set(&key, &vec![2u8], &mut txn).unwrap();
    db.set(&key, &vec![3u8], &mut txn).unwrap();

    let mut cursor = db.new_cursor(&txn).unwrap();
    cursor.move_to_key(&key, &txn).unwrap();
    cursor.del_all(&mut txn).unwrap();

    assert!(matches!(db.get(&key, &txn), Err(MdbError::NotFound)));
}

#[test]
fn test_commit_into_wrong_environment() {
    // A transaction can only be committed into the environment whose
    // databases it snapshots; anything else is the engine's bad-txn.
    let mut env1 = EnvBuilder::new().max_dbs(5).open("db1", 0o777).unwrap();
    env1.create_db("extra", 0).unwrap();
    let mut env2 = EnvBuilder::new().max_dbs(5).open("db2", 0o777).unwrap();
    let txn = env1.new_transaction().unwrap();
    match txn.commit(&mut env2) {
        Err(MdbError::Other(code, _)) => assert_eq!(code, MDB_BAD_TXN),
        _ => panic!("expected the bad-transaction report"),
    }
}

#[test]
fn test_db_creation() {
    let mut env = EnvBuilder::new().max_dbs(5).open("db", 0o777).unwrap();
    assert!(env.create_db("test-db", 0).is_ok());
}

#[test]
fn test_read_only_txn() {
    let env = EnvBuilder::new().max_dbs(5).open("db", 0o777).unwrap();
    env.get_reader().unwrap();
}

#[test]
fn test_open_same_db_twice_same_handle() {
    // Cache correctness: a second open of the same name returns the
    // first handle unchanged.
    let mut env = EnvBuilder::new().max_dbs(5).open("db", 0o777).unwrap();
    let db1 = env.create_db("shared", 0).unwrap();
    let db2 = env.create_db("shared", 0).unwrap();
    let db3 = env.get_db("shared", 0).unwrap();
    assert_eq!(db1.handle, db2.handle);
    assert_eq!(db1.handle, db3.handle);

    let other = env.create_db("other", 0).unwrap();
    assert_ne!(db1.handle, other.handle);
    assert_eq!(env.create_db("other", 0).unwrap().handle, other.handle);
}

#[test]
fn test_create_refused_on_readonly_env() {
    let mut env = EnvBuilder::new()
        .flags(ENV_CREATE_READONLY)
        .open("db", 0o777)
        .unwrap();
    match env.create_db("fresh", 0) {
        Err(MdbError::Other(code, _)) => assert_eq!(code, EACCES),
        _ => panic!("expected the engine's access error"),
    }
    assert!(matches!(env.get_db("fresh", 0), Err(MdbError::NotFound)));
}

#[test]
fn test_stat() {
    let mut env = EnvBuilder::new().max_dbs(5).open("db", 0o777).unwrap();

    let dss: Vec<(&str, Vec<(&[u8], &[u8])>)> = vec![
        ("", vec![(b"default", b"db"), (b"has", b"some"), (b"extras", b"prepared")]),
        ("db1", vec![(b"foo", b"bar"), (b"quux", b"qak")]),
        ("db2", vec![(b"a", b"abc"), (b"b", b"bcd"), (b"c", b"cde"), (b"d", b"def")]),
        ("db3", vec![(b"hip", b"hop")]),
    ];

    for (name, ds) in &dss {
        let db = env.create_db(name, 0).unwrap();
        let mut tx = env.new_transaction().unwrap();
        for (k, v) in ds {
            assert!(db.set(&k.to_vec(), &v.to_vec(), &mut tx).is_ok());
        }
        let stat = db.stat(&tx).unwrap();
        assert_eq!(ds.len(), stat.entries);
        tx.commit(&mut env).unwrap();
    }

    // The environment's own count: the default database's entries plus
    // one record per named database.
    let stat = env.stat().unwrap();
    assert_eq!(dss[0].1.len() + dss[1..].len(), stat.entries);
}

#[test]
fn test_clear_keeps_handle() {
    let mut env = EnvBuilder::new().open("db", 0o777).unwrap();
    let db = env.get_default_db(0).unwrap();
    let mut txn = env.new_transaction().unwrap();
    db.set(&vec![1u8], &vec![2u8], &mut txn).unwrap();
    db.clear(&mut txn).unwrap();
    assert!(db.get(&vec![1u8], &txn).is_err());
    // The handle is still usable after a clear.
    db.set(&vec![1u8], &vec![3u8], &mut txn).unwrap();
    assert_eq!(db.get(&vec![1u8], &txn).unwrap(), vec![3u8]);
}

#[test]
fn test_del_db_invalidates_cache_entry() {
    let mut env = EnvBuilder::new().max_dbs(5).open("db", 0o777).unwrap();
    let db = env.create_db("doomed", 0).unwrap();
    let handle = db.handle;
    let mut txn = env.new_transaction().unwrap();
    db.set(&vec![1u8], &vec![2u8], &mut txn).unwrap();
    db.del_db(&mut env, &mut txn).unwrap();
    txn.commit(&mut env).unwrap();
    // The cache forgot the handle; a later create may hand out a fresh
    // binding for the same name.
    let again = env.create_db("doomed", 0).unwrap();
    assert_eq!(again.handle, handle);
    let reader = env.get_reader().unwrap();
    assert!(again.get(&vec![1u8], &reader).is_err());
}

#[test]
fn test_item_accessor() {
    let mut env = EnvBuilder::new().open("db", 0o777).unwrap();
    let db = env.get_default_db(DB_ALLOW_DUPS).unwrap();
    let mut txn = env.new_transaction().unwrap();
    let key = b"key1".to_vec();

    let cursor = db.new_cursor(&txn).unwrap();
    let mut acc = cursor.get_item(&key);
    assert!(acc.get(&txn).is_err());
    acc.add(&vec![1u8], &mut txn).unwrap();
    acc.add(&vec![2u8], &mut txn).unwrap();
    assert_eq!(acc.get(&txn).unwrap(), vec![1u8]);
    acc.del(&vec![1u8], &mut txn).unwrap();
    assert_eq!(acc.get(&txn).unwrap(), vec![2u8]);
    acc.del_all(&mut txn).unwrap();
    assert!(acc.get(&txn).is_err());
    let _cursor = acc.into_inner();
}

#[test]
fn test_env_misc_accessors() {
    let mut env = EnvBuilder::new()
        .max_readers(33)
        .map_size(1 << 20)
        .autocreate_dir(false)
        .open("db", 0o777)
        .unwrap();
    assert_eq!(env.get_maxreaders().unwrap(), 33);
    assert_eq!(env.get_maxkeysize(), 511);
    assert_eq!(env.reader_check().unwrap(), 0);
    assert!(env.set_mapsize(1 << 21).is_ok());
    assert_eq!(env.get_all_flags().unwrap(), 0);
}
