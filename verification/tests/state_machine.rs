//! The transaction state machine: transitions, gating, and the error
//! taxonomy's code mapping.

use lmdb_rs::environment::{EnvBuilder, ENV_CREATE_READONLY};
use lmdb_rs::error::{
    MdbError, EACCES, EINVAL, MDB_CORRUPTED, MDB_CURSOR_FULL, MDB_KEYEXIST, MDB_MAP_FULL,
    MDB_NOTFOUND, MDB_PAGE_FULL, MDB_PANIC, MDB_TXN_FULL,
};
use lmdb_rs::transaction::{
    abort_transition, check_normal, commit_transition, renew_transition, reset_transition,
    TransactionState,
};

#[test]
fn test_commit_transitions() {
    // A read-only commit releases; a read-write commit invalidates.
    assert_eq!(
        commit_transition(true, TransactionState::Normal).unwrap(),
        TransactionState::Released
    );
    assert_eq!(
        commit_transition(false, TransactionState::Normal).unwrap(),
        TransactionState::Invalid
    );
    // Committing anything but Normal is a state error.
    assert!(matches!(
        commit_transition(false, TransactionState::Invalid),
        Err(MdbError::StateError(_))
    ));
    assert!(matches!(
        commit_transition(true, TransactionState::Released),
        Err(MdbError::StateError(_))
    ));
}

#[test]
fn test_abort_and_reset_transitions() {
    assert_eq!(
        abort_transition(true, TransactionState::Normal),
        TransactionState::Released
    );
    assert_eq!(
        abort_transition(false, TransactionState::Normal),
        TransactionState::Invalid
    );
    // Abort and reset outside Normal leave the state alone.
    assert_eq!(
        abort_transition(false, TransactionState::Invalid),
        TransactionState::Invalid
    );
    assert_eq!(
        reset_transition(TransactionState::Normal),
        TransactionState::Released
    );
    assert_eq!(
        reset_transition(TransactionState::Released),
        TransactionState::Released
    );
}

#[test]
fn test_renew_transitions() {
    assert_eq!(
        renew_transition(TransactionState::Released).unwrap(),
        TransactionState::Normal
    );
    assert!(matches!(
        renew_transition(TransactionState::Normal),
        Err(MdbError::StateError(_))
    ));
    assert!(matches!(
        renew_transition(TransactionState::Invalid),
        Err(MdbError::StateError(_))
    ));
}

#[test]
fn test_check_normal_gate() {
    assert!(check_normal("txn", TransactionState::Normal).is_ok());
    match check_normal("txn", TransactionState::Released) {
        Err(MdbError::StateError(msg)) => {
            assert_eq!(msg, "txn requires state Normal, is in Released");
        }
        _ => panic!("expected a state error"),
    }
}

#[test]
fn test_readonly_commit_then_renew() {
    // A released reader can be renewed and reused.
    let env = EnvBuilder::new().open("db", 0o777).unwrap();
    let mut reader = env.get_reader().unwrap();
    reader.commit().unwrap();
    assert!(matches!(reader.commit(), Err(MdbError::StateError(_))));
    reader.renew(&env).unwrap();
    reader.reset();
    reader.renew(&env).unwrap();
    reader.abort();
    reader.renew(&env).unwrap();
}

#[test]
fn test_readonly_env_refuses_writer() {
    let env = EnvBuilder::new()
        .flags(ENV_CREATE_READONLY)
        .open("db", 0o777)
        .unwrap();
    assert!(matches!(
        env.new_transaction(),
        Err(MdbError::StateError(_))
    ));
    assert!(env.get_reader().is_ok());
}

#[test]
fn test_error_code_mapping() {
    assert!(matches!(
        MdbError::new_with_code(MDB_NOTFOUND),
        MdbError::NotFound
    ));
    assert!(matches!(
        MdbError::new_with_code(MDB_KEYEXIST),
        MdbError::KeyExists
    ));
    assert!(matches!(
        MdbError::new_with_code(MDB_TXN_FULL),
        MdbError::TxnFull
    ));
    assert!(matches!(
        MdbError::new_with_code(MDB_CURSOR_FULL),
        MdbError::CursorFull
    ));
    assert!(matches!(
        MdbError::new_with_code(MDB_PAGE_FULL),
        MdbError::PageFull
    ));
    assert!(matches!(
        MdbError::new_with_code(MDB_CORRUPTED),
        MdbError::Corrupted
    ));
    assert!(matches!(MdbError::new_with_code(MDB_PANIC), MdbError::Panic));
    // Unrecognized codes carry the raw code, never a silent default.
    match MdbError::new_with_code(MDB_MAP_FULL) {
        MdbError::Other(code, _) => assert_eq!(code, MDB_MAP_FULL),
        _ => panic!("expected the raw code to be carried"),
    }
    match MdbError::new_with_code(EINVAL) {
        MdbError::Other(code, _) => assert_eq!(code, EINVAL),
        _ => panic!("expected the raw code to be carried"),
    }
    match MdbError::new_with_code(EACCES) {
        MdbError::Other(code, _) => assert_eq!(code, EACCES),
        _ => panic!("expected the raw code to be carried"),
    }
}

#[test]
fn test_error_descriptions() {
    assert_eq!(MdbError::NotFound.description(), "not found");
    assert_eq!(MdbError::KeyExists.description(), "key exists");
    assert_eq!(MdbError::TxnFull.description(), "txn full");
    assert_eq!(MdbError::CursorFull.description(), "cursor full");
    assert_eq!(MdbError::PageFull.description(), "page full");
    assert_eq!(MdbError::Corrupted.description(), "corrupted");
    assert_eq!(MdbError::Panic.description(), "panic");
    assert_eq!(
        MdbError::InvalidPath.description(),
        "invalid path for database"
    );
    assert_eq!(MdbError::CacheError.description(), "db cache error");
    assert_eq!(
        MdbError::StateError(String::new()).description(),
        "state error"
    );
    assert_eq!(MdbError::Other(7, String::new()).description(), "other error");
}

#[test]
fn test_operations_after_reset_fail() {
    let mut env = EnvBuilder::new().open("db", 0o777).unwrap();
    let db = env.get_default_db(0).unwrap();
    let mut reader = env.get_reader().unwrap();
    reader.reset();
    let key = vec![1u8];
    assert!(matches!(
        db.get(&key, &reader),
        Err(MdbError::StateError(_))
    ));
    reader.renew(&env).unwrap();
    assert!(matches!(db.get(&key, &reader), Err(MdbError::NotFound)));
}
