//! The closed error taxonomy of the layer.
//!
//! Engine status codes are mapped at the boundary into these variants;
//! an unrecognized code is never swallowed but carried verbatim in
//! `Other`.  State violations are detected by this layer before the
//! engine is reached and reported as `StateError`.

use vstd::prelude::*;

verus! {

/// The engine's status code for success.
pub const MDB_SUCCESS: i32 = 0;

/// The engine's status code for a key/value pair that already exists.
pub const MDB_KEYEXIST: i32 = -30799;

/// The engine's status code for a missing key, value or item.
pub const MDB_NOTFOUND: i32 = -30798;

/// The engine's status code for a corrupted page.
pub const MDB_CORRUPTED: i32 = -30796;

/// The engine's status code for a fatal internal condition.
pub const MDB_PANIC: i32 = -30795;

/// The engine's status code for an exhausted memory map.
pub const MDB_MAP_FULL: i32 = -30792;

/// The engine's status code for a transaction with too many dirty pages.
pub const MDB_TXN_FULL: i32 = -30788;

/// The engine's status code for an exhausted cursor stack.
pub const MDB_CURSOR_FULL: i32 = -30787;

/// The engine's status code for an overfull page.
pub const MDB_PAGE_FULL: i32 = -30786;

/// The engine's status code for a stale database handle.
pub const MDB_BAD_DBI: i32 = -30780;

/// The engine's status code for a transaction that cannot be used here.
pub const MDB_BAD_TXN: i32 = -30782;

/// The operating system's code for an invalid argument, returned by the
/// engine when a cursor is read before it was positioned.
pub const EINVAL: i32 = 22;

/// The operating system's code for a refused access, returned by the
/// engine when a write is attempted through a read-only path.
pub const EACCES: i32 = 13;

/// Everything that a database, transaction or cursor operation can fail
/// with.
#[derive(Debug)]
pub enum MdbError {
    /// The requested key, value or item is not present.
    NotFound,
    /// The key (or key/value pair) is already present, or an append was
    /// out of order.
    KeyExists,
    /// The transaction has too many dirty pages.
    TxnFull,
    /// The cursor stack is exhausted.
    CursorFull,
    /// A page has no room left.
    PageFull,
    /// The store is corrupted.
    Corrupted,
    /// The engine hit a fatal internal condition.
    Panic,
    /// The environment path is unusable.
    InvalidPath,
    /// The operation needs a transaction state it did not find; the
    /// message names the operation and the states.
    StateError(String),
    /// The database-handle cache's lock could not be acquired.
    CacheError,
    /// Any other status code, carried verbatim with a rendered message.
    Other(i32, String),
}

/// Whether a status code has a variant of its own in the taxonomy.
pub open spec fn is_named_code(code: i32) -> bool {
    code == MDB_NOTFOUND || code == MDB_KEYEXIST || code == MDB_TXN_FULL || code == MDB_CURSOR_FULL
        || code == MDB_PAGE_FULL || code == MDB_CORRUPTED || code == MDB_PANIC
}

impl MdbError {
    /// Map an engine status code onto the taxonomy.  Codes without a
    /// variant of their own are carried in `Other`; no code is dropped.
    pub fn new_with_code(code: i32) -> (r: MdbError)
        ensures
            code == MDB_NOTFOUND ==> r == MdbError::NotFound,
            code == MDB_KEYEXIST ==> r == MdbError::KeyExists,
            code == MDB_TXN_FULL ==> r == MdbError::TxnFull,
            code == MDB_CURSOR_FULL ==> r == MdbError::CursorFull,
            code == MDB_PAGE_FULL ==> r == MdbError::PageFull,
            code == MDB_CORRUPTED ==> r == MdbError::Corrupted,
            code == MDB_PANIC ==> r == MdbError::Panic,
            !is_named_code(code) ==> (r matches MdbError::Other(c, _) && c == code),
    {
        if code == MDB_NOTFOUND {
            MdbError::NotFound
        } else if code == MDB_KEYEXIST {
            MdbError::KeyExists
        } else if code == MDB_TXN_FULL {
            MdbError::TxnFull
        } else if code == MDB_CURSOR_FULL {
            MdbError::CursorFull
        } else if code == MDB_PAGE_FULL {
            MdbError::PageFull
        } else if code == MDB_CORRUPTED {
            MdbError::Corrupted
        } else if code == MDB_PANIC {
            MdbError::Panic
        } else {
            MdbError::Other(code, String::new())
        }
    }

    /// A short fixed description of the error's kind.
    pub fn description(&self) -> (r: &'static str)
        ensures
            self is NotFound ==> r@ == "not found"@,
            self is KeyExists ==> r@ == "key exists"@,
            self is TxnFull ==> r@ == "txn full"@,
            self is CursorFull ==> r@ == "cursor full"@,
            self is PageFull ==> r@ == "page full"@,
            self is Corrupted ==> r@ == "corrupted"@,
            self is Panic ==> r@ == "panic"@,
            self is InvalidPath ==> r@ == "invalid path for database"@,
            self is StateError ==> r@ == "state error"@,
            self is CacheError ==> r@ == "db cache error"@,
            self is Other ==> r@ == "other error"@,
    {
        match self {
            MdbError::NotFound => "not found",
            MdbError::KeyExists => "key exists",
            MdbError::TxnFull => "txn full",
            MdbError::CursorFull => "cursor full",
            MdbError::PageFull => "page full",
            MdbError::Corrupted => "corrupted",
            MdbError::Panic => "panic",
            MdbError::InvalidPath => "invalid path for database",
            MdbError::StateError(_) => "state error",
            MdbError::CacheError => "db cache error",
            MdbError::Other(_, _) => "other error",
        }
    }
}

/// The result type of every fallible operation of the layer.
pub type MdbResult<T> = Result<T, MdbError>;

} // verus!
