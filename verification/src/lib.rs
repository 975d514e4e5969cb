//! A safe, verified access layer for an embedded transactional key-value
//! store, in the shape of an environment that hands out transactions,
//! databases and cursors.
//!
//! The layer's own logic — the transaction state machine, the gating of
//! every operation on transaction state, the cursor navigation algorithms
//! (most delicately the "less than or equal" searches, synthesized from
//! "greater or equal, then step back"), the lazy range-iteration policies
//! and the database-handle cache — is implemented and verified here over an
//! in-memory table of records.  A process that wants the same orchestration
//! on top of a memory-mapped on-disk engine drives that engine through this
//! crate's decision functions; the engine itself (B-tree, paging, locking)
//! is outside this crate.

pub mod cursor;
pub mod database;
pub mod environment;
pub mod error;
pub mod iter;
pub mod laws;
pub mod order;
pub mod store;
pub mod transaction;
