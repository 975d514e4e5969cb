//! The transaction state machine, and the two transaction flavours.
//!
//! A transaction is always in one of three states.  `Normal` allows
//! every operation; `Released` is reached when a read-only transaction
//! is reset or committed and allows nothing until a renew; `Invalid` is
//! terminal, reached when a read-write transaction commits or aborts.
//! Every database and cursor operation asserts `Normal` first and fails
//! with a `StateError` otherwise — checked, not fatal, because callers
//! may race or reuse handles incorrectly.
//!
//! The transition functions are small and pure on purpose: an embedding
//! that drives an on-disk engine makes the same decisions by calling
//! them on its own handle's state.

use vstd::prelude::*;
use vstd::string::StringExecFns;

use crate::error::{MdbError, MdbResult, MDB_BAD_TXN};
use crate::database::{Database, DbHandle};
use crate::store::{
    clone_stores, compatible_stores, same_stores, stores_wf, DbStore,
};

verus! {

/// The state of a transaction.
#[derive(Clone, Copy, PartialEq, Eq, Structural, Debug)]
pub enum TransactionState {
    /// Any operation possible.
    Normal,
    /// Released (a reset or committed read-only transaction); has to be
    /// renewed before further use.
    Released,
    /// Terminal; no further operation possible.
    Invalid,
}

/// The name of a state, as diagnostics print it.
pub open spec fn spec_state_name(s: TransactionState) -> Seq<char> {
    match s {
        TransactionState::Normal => "Normal"@,
        TransactionState::Released => "Released"@,
        TransactionState::Invalid => "Invalid"@,
    }
}

/// The message a `StateError` carries: the operation it refused, the
/// state that operation needs, and the state it found.
pub open spec fn spec_state_error_msg(
    op: Seq<char>,
    expected: TransactionState,
    actual: TransactionState,
) -> Seq<char> {
    op + " requires state "@ + spec_state_name(expected) + ", is in "@ + spec_state_name(actual)
}

fn state_name(s: TransactionState) -> (r: &'static str)
    ensures
        r@ == spec_state_name(s),
{
    match s {
        TransactionState::Normal => "Normal",
        TransactionState::Released => "Released",
        TransactionState::Invalid => "Invalid",
    }
}

/// A `StateError` naming the operation, the state it needs and the
/// state it found.
pub fn state_error(op: &str, expected: TransactionState, actual: TransactionState) -> (r: MdbError)
    ensures
        r matches MdbError::StateError(m) && m@ == spec_state_error_msg(op@, expected, actual),
{
    let mut msg = String::new();
    msg.append(op);
    msg.append(" requires state ");
    msg.append(state_name(expected));
    msg.append(", is in ");
    msg.append(state_name(actual));
    proof {
        assert(msg@ =~= spec_state_error_msg(op@, expected, actual));
    }
    MdbError::StateError(msg)
}

/// The check every operation runs first: the transaction must be in
/// `Normal` state.
pub fn check_normal(op: &str, state: TransactionState) -> (r: MdbResult<()>)
    ensures
        match r {
            Ok(()) => state is Normal,
            Err(e) => !(state is Normal) && (e matches MdbError::StateError(m) && m@
                == spec_state_error_msg(op@, TransactionState::Normal, state)),
        },
{
    if let TransactionState::Normal = state {
        Ok(())
    } else {
        Err(state_error(op, TransactionState::Normal, state))
    }
}

/// The state a commit or abort moves a `Normal` transaction to:
/// read-only transactions are released for reuse, read-write ones are
/// done for good.
pub open spec fn commit_target(readonly: bool) -> TransactionState {
    if readonly {
        TransactionState::Released
    } else {
        TransactionState::Invalid
    }
}

/// Decide a commit: only a `Normal` transaction may commit, and it
/// advances to `Released` (read-only) or `Invalid` (read-write).
pub fn commit_transition(readonly: bool, state: TransactionState) -> (r: MdbResult<
    TransactionState,
>)
    ensures
        match r {
            Ok(s) => state is Normal && s == commit_target(readonly),
            Err(e) => !(state is Normal) && e is StateError,
        },
{
    check_normal("commit", state)?;
    Ok(if readonly {
        TransactionState::Released
    } else {
        TransactionState::Invalid
    })
}

/// Decide an abort: a `Normal` transaction advances as a commit would;
/// anything else is left alone (a diagnostic, not an error).
pub fn abort_transition(readonly: bool, state: TransactionState) -> (r: TransactionState)
    ensures
        state is Normal ==> r == commit_target(readonly),
        !(state is Normal) ==> r == state,
{
    if let TransactionState::Normal = state {
        if readonly {
            TransactionState::Released
        } else {
            TransactionState::Invalid
        }
    } else {
        state
    }
}

/// Decide a reset (read-only transactions): `Normal` becomes
/// `Released`, anything else is left alone.
pub fn reset_transition(state: TransactionState) -> (r: TransactionState)
    ensures
        state is Normal ==> r == TransactionState::Released,
        !(state is Normal) ==> r == state,
{
    if let TransactionState::Normal = state {
        TransactionState::Released
    } else {
        state
    }
}

/// Decide a renew (read-only transactions): only a `Released`
/// transaction may be renewed, back to `Normal`.
pub fn renew_transition(state: TransactionState) -> (r: MdbResult<TransactionState>)
    ensures
        match r {
            Ok(s) => state is Released && s is Normal,
            Err(e) => !(state is Released) && e is StateError,
        },
{
    if let TransactionState::Released = state {
        Ok(TransactionState::Normal)
    } else {
        Err(state_error("renew", TransactionState::Released, state))
    }
}

/// The working view of one transaction: a snapshot of every database's
/// table, the state, and the read-only flag.
pub struct NativeTransaction {
    /// This transaction's working copy of every database table.
    pub work: Vec<DbStore>,
    /// The current state.
    pub state: TransactionState,
    /// Whether the transaction is read-only.
    pub readonly: bool,
}

impl NativeTransaction {
    /// Every table of the working copy is well formed.
    pub open spec fn wf(self) -> bool {
        stores_wf(self.work@)
    }
}

/// What both transaction flavours offer: their working view.  Database
/// and cursor operations are generic over this, as every one of them
/// needs the same state gate and the same table access.
pub trait Txn: Sized {
    /// The working view.
    spec fn txn_view(&self) -> NativeTransaction;

    /// Borrow the working view.
    fn txn_ref(&self) -> (r: &NativeTransaction)
        ensures
            *r == self.txn_view(),
    ;

    /// Borrow the working view for writing.
    fn txn_mut(&mut self) -> (r: &mut NativeTransaction)
        ensures
            *r == old(self).txn_view(),
            final(self).txn_view() == *final(r),
    ;

    /// The current state.
    fn get_state(&self) -> (s: TransactionState)
        ensures
            s == self.txn_view().state,
    ;
}

/// A read-write transaction.
pub struct Transaction {
    pub inner: NativeTransaction,
}

impl Txn for Transaction {
    open spec fn txn_view(&self) -> NativeTransaction {
        self.inner
    }

    fn txn_ref(&self) -> (r: &NativeTransaction) {
        &self.inner
    }

    fn txn_mut(&mut self) -> (r: &mut NativeTransaction) {
        &mut self.inner
    }

    fn get_state(&self) -> (s: TransactionState) {
        self.inner.state
    }
}

impl Transaction {
    /// Wrap a working view.
    pub fn new_with_native(txn: NativeTransaction) -> (r: Transaction)
        ensures
            r.inner == txn,
    {
        Transaction { inner: txn }
    }

    /// Begin a nested read-write transaction: a snapshot of this one's
    /// working copy.  Its changes reach this transaction only through
    /// `commit_to_parent`; dropping it discards them.  Only a `Normal`
    /// transaction can nest.
    pub fn new_child(&self) -> (r: MdbResult<Transaction>)
        requires
            self.inner.wf(),
        ensures
            match r {
                Ok(child) => {
                    &&& self.inner.state is Normal
                    &&& child.inner.state is Normal
                    &&& !child.inner.readonly
                    &&& child.inner.wf()
                    &&& same_stores(child.inner.work@, self.inner.work@)
                },
                Err(e) => !(self.inner.state is Normal) && e is StateError,
            },
    {
        check_normal("txn", self.inner.state)?;
        Ok(Transaction {
            inner: NativeTransaction {
                work: clone_stores(&self.inner.work),
                state: TransactionState::Normal,
                readonly: false,
            },
        })
    }

    /// Begin a nested read-only transaction over this one's working
    /// copy.
    pub fn new_ro_child(&self) -> (r: MdbResult<ReadonlyTransaction>)
        requires
            self.inner.wf(),
        ensures
            match r {
                Ok(child) => {
                    &&& self.inner.state is Normal
                    &&& child.inner.state is Normal
                    &&& child.inner.readonly
                    &&& child.inner.wf()
                    &&& same_stores(child.inner.work@, self.inner.work@)
                },
                Err(e) => !(self.inner.state is Normal) && e is StateError,
            },
    {
        check_normal("txn", self.inner.state)?;
        Ok(ReadonlyTransaction {
            inner: NativeTransaction {
                work: clone_stores(&self.inner.work),
                state: TransactionState::Normal,
                readonly: true,
            },
        })
    }

    /// Commit a nested transaction into its parent: the parent's
    /// working copy becomes this one's.  Both transactions must be
    /// `Normal`, and the child must really be a transaction over the
    /// same databases.
    pub fn commit_to_parent(self, parent: &mut Transaction) -> (r: MdbResult<()>)
        ensures
            match r {
                Ok(()) => {
                    &&& self.inner.state is Normal
                    &&& old(parent).inner.state is Normal
                    &&& final(parent).inner.work@ == self.inner.work@
                    &&& final(parent).inner.state == old(parent).inner.state
                    &&& final(parent).inner.readonly == old(parent).inner.readonly
                },
                Err(e) => {
                    &&& *final(parent) == *old(parent)
                    &&& (e is StateError <==> !(self.inner.state is Normal) || !(old(
                        parent,
                    ).inner.state is Normal))
                    &&& ((e matches MdbError::Other(c, _) && c == MDB_BAD_TXN) <==> (
                    self.inner.state is Normal && old(parent).inner.state is Normal
                        && !compatible_stores(self.inner.work@, old(parent).inner.work@)))
                },
            },
    {
        check_normal("commit", self.inner.state)?;
        check_normal("commit", parent.inner.state)?;
        if !crate::store::check_compatible(&self.inner.work, &parent.inner.work) {
            return Err(MdbError::new_with_code(MDB_BAD_TXN));
        }
        let t = self;
        parent.inner.work = t.inner.work;
        Ok(())
    }

    /// Commit, moving the transaction out: the environment's tables
    /// become this transaction's working copy.  The transaction must be
    /// `Normal` and must belong to this environment (same databases).
    pub fn commit(self, env: &mut crate::environment::Environment) -> (r: MdbResult<()>)
        ensures
            match r {
                Ok(()) => {
                    &&& self.inner.state is Normal
                    &&& final(env).stores@ == self.inner.work@
                    &&& final(env).cache@ == old(env).cache@
                    &&& final(env).is_readonly == old(env).is_readonly
                    &&& final(env).flags == old(env).flags
                    &&& final(env).map_size == old(env).map_size
                    &&& final(env).max_readers == old(env).max_readers
                },
                Err(e) => {
                    &&& *final(env) == *old(env)
                    &&& (e is StateError <==> !(self.inner.state is Normal))
                    &&& ((e matches MdbError::Other(c, _) && c == MDB_BAD_TXN) <==> (
                    self.inner.state is Normal && !compatible_stores(
                        self.inner.work@,
                        old(env).stores@,
                    )))
                },
            },
    {
        check_normal("commit", self.inner.state)?;
        if !crate::store::check_compatible(&self.inner.work, &env.stores) {
            return Err(MdbError::new_with_code(MDB_BAD_TXN));
        }
        let t = self;
        env.stores = t.inner.work;
        Ok(())
    }

    /// Abort, moving the transaction out; its changes are discarded.
    pub fn abort(self) {
        let mut t = self;
        t.inner.state = abort_transition(t.inner.readonly, t.inner.state);
    }
}

/// A read-only transaction: a frozen snapshot that can be released and
/// renewed.
pub struct ReadonlyTransaction {
    pub inner: NativeTransaction,
}

impl Txn for ReadonlyTransaction {
    open spec fn txn_view(&self) -> NativeTransaction {
        self.inner
    }

    fn txn_ref(&self) -> (r: &NativeTransaction) {
        &self.inner
    }

    fn txn_mut(&mut self) -> (r: &mut NativeTransaction) {
        &mut self.inner
    }

    fn get_state(&self) -> (s: TransactionState) {
        self.inner.state
    }
}

impl ReadonlyTransaction {
    /// Wrap a working view.
    pub fn new_with_native(txn: NativeTransaction) -> (r: ReadonlyTransaction)
        ensures
            r.inner == txn,
    {
        ReadonlyTransaction { inner: txn }
    }

    /// Commit a read-only transaction: it moves to `Released`, not
    /// `Invalid`, and can be renewed and reused; its snapshot is kept.
    pub fn commit(&mut self) -> (r: MdbResult<()>)
        ensures
            match r {
                Ok(()) => old(self).inner.state is Normal && final(self).inner
                    == (NativeTransaction {
                    state: TransactionState::Released,
                    ..old(self).inner
                }),
                Err(e) => !(old(self).inner.state is Normal) && e is StateError && *final(self)
                    == *old(self),
            },
    {
        let s = commit_transition(true, self.inner.state)?;
        self.inner.state = s;
        Ok(())
    }

    /// Abort: a `Normal` read-only transaction moves to `Released` and
    /// may be renewed later; in any other state this is a no-op.
    pub fn abort(&mut self)
        ensures
            final(self).inner == (NativeTransaction {
                state: if old(self).inner.state is Normal {
                    TransactionState::Released
                } else {
                    old(self).inner.state
                },
                ..old(self).inner
            }),
    {
        let s = abort_transition(true, self.inner.state);
        self.inner.state = s;
    }

    /// Release the snapshot, keeping the handle for a later `renew`.
    /// In any state but `Normal` this is a no-op.
    pub fn reset(&mut self)
        ensures
            final(self).inner == (NativeTransaction {
                state: if old(self).inner.state is Normal {
                    TransactionState::Released
                } else {
                    old(self).inner.state
                },
                ..old(self).inner
            }),
    {
        let s = reset_transition(self.inner.state);
        self.inner.state = s;
    }

    /// Take a fresh snapshot of the environment after a release: only a
    /// `Released` transaction can be renewed, back to `Normal`.
    pub fn renew(&mut self, env: &crate::environment::Environment) -> (r: MdbResult<()>)
        ensures
            match r {
                Ok(()) => {
                    &&& old(self).inner.state is Released
                    &&& final(self).inner.state is Normal
                    &&& final(self).inner.readonly == old(self).inner.readonly
                    &&& same_stores(final(self).inner.work@, env.stores@)
                    &&& stores_wf(env.stores@) ==> final(self).inner.wf()
                },
                Err(e) => !(old(self).inner.state is Released) && e is StateError && *final(self)
                    == *old(self),
            },
    {
        let s = renew_transition(self.inner.state)?;
        self.inner.work = clone_stores(&env.stores);
        self.inner.state = s;
        Ok(())
    }

    /// Bind a cached database handle to this transaction.
    pub fn bind(&self, db_handle: DbHandle) -> (r: Database)
        ensures
            r.handle == db_handle.handle,
    {
        Database::new_with_handle(db_handle.handle)
    }

    /// Begin a nested read-only transaction over this one's snapshot.
    pub fn new_ro_child(&self) -> (r: MdbResult<ReadonlyTransaction>)
        requires
            self.inner.wf(),
        ensures
            match r {
                Ok(child) => {
                    &&& self.inner.state is Normal
                    &&& child.inner.state is Normal
                    &&& child.inner.readonly
                    &&& child.inner.wf()
                    &&& same_stores(child.inner.work@, self.inner.work@)
                },
                Err(e) => !(self.inner.state is Normal) && e is StateError,
            },
    {
        check_normal("txn", self.inner.state)?;
        Ok(ReadonlyTransaction {
            inner: NativeTransaction {
                work: clone_stores(&self.inner.work),
                state: TransactionState::Normal,
                readonly: true,
            },
        })
    }
}

} // verus!
