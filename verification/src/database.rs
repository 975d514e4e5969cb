//! Database handles and the point operations on one database.
//!
//! A `Database` is a lightweight handle; every operation takes the
//! transaction it runs under, asserts that the transaction is in
//! `Normal` state, and then works on the transaction's copy of the
//! table behind the handle.

use vstd::prelude::*;

use crate::error::{MdbError, MdbResult, EACCES, EINVAL, MDB_BAD_DBI};
use crate::store::{lower_bound, DbStore};
use crate::transaction::{check_normal, Txn};

verus! {

/// Flag: keys are compared in reverse order, from the end of the
/// strings to the beginning.
pub const DB_REVERSE_KEY: u32 = 0x02;

/// Flag: duplicate keys may be used — one key may hold several data
/// items, stored in sorted order.
pub const DB_ALLOW_DUPS: u32 = 0x04;

/// Flag: keys are binary integers in native byte order, all the same
/// size.
pub const DB_INT_KEY: u32 = 0x08;

/// Flag: with `DB_ALLOW_DUPS`, all data items are the same size.
pub const DB_DUP_FIXED: u32 = 0x10;

/// Flag: duplicate data items are binary integers, sorted as such.
pub const DB_ALLOW_INT_DUPS: u32 = 0x20;

/// Flag: duplicate data items are compared in reverse order.
pub const DB_REVERSE_DUPS: u32 = 0x40;

/// Flag: create the named database if it does not exist.  Not allowed
/// in a read-only environment.
pub const DB_CREATE: u32 = 0x40000;

/// A database handle: an index into the environment's tables.
pub struct Database {
    pub handle: usize,
}

/// A database handle together with the flags it was opened with; it
/// can be cached by the caller and re-bound to a later transaction.
#[derive(Clone, Copy, Debug)]
pub struct DbHandle {
    pub handle: usize,
    pub flags: u32,
}

/// Statistics of one database or of the environment.
pub struct Stat {
    /// The number of entries.
    pub entries: usize,
}

impl Database {
    /// Wrap a raw handle.
    pub fn new_with_handle(handle: usize) -> (r: Database)
        ensures
            r.handle == handle,
    {
        Database { handle }
    }

    /// The table this handle selects in the given transaction view.
    pub open spec fn store_of(self, t: crate::transaction::NativeTransaction) -> DbStore {
        t.work@[self.handle as int]
    }

    /// Whether this handle selects a table at all.
    pub open spec fn in_range(self, t: crate::transaction::NativeTransaction) -> bool {
        self.handle < t.work@.len()
    }

    /// Retrieve the first value under `key`: the one the installed
    /// duplicate order sorts foremost.  Fails `StateError` outside a
    /// `Normal` transaction and `NotFound` for an absent key.
    pub fn get<T: Txn>(&self, key: &Vec<u8>, txn: &T) -> (r: MdbResult<Vec<u8>>)
        requires
            txn.txn_view().wf(),
        ensures
            ({
                let t = txn.txn_view();
                match r {
                    Ok(v) => t.state is Normal && self.in_range(t) && self.store_of(
                        t,
                    ).lookup_first(key@) == Some(v@),
                    Err(e) => {
                        if !(t.state is Normal) {
                            e is StateError
                        } else if !self.in_range(t) {
                            e matches MdbError::Other(c, _) && c == MDB_BAD_DBI
                        } else {
                            e == MdbError::NotFound && !self.store_of(t).has_key(key@)
                        }
                    },
                }
            }),
    {
        check_normal("get", txn.get_state())?;
        let inner = txn.txn_ref();
        if self.handle >= inner.work.len() {
            return Err(MdbError::new_with_code(MDB_BAD_DBI));
        }
        inner.work[self.handle].get_first(key)
    }

    /// Store `value` under `key`: an upsert without duplicates, an
    /// added item with them (a no-op when the pair already exists).
    pub fn set<T: Txn>(&self, key: &Vec<u8>, value: &Vec<u8>, txn: &mut T) -> (r: MdbResult<()>)
        requires
            old(txn).txn_view().wf(),
        ensures
            final(txn).txn_view().wf(),
            ({
                let t = old(txn).txn_view();
                let u = final(txn).txn_view();
                match r {
                    Ok(()) => {
                        &&& t.state is Normal
                        &&& !t.readonly
                        &&& self.in_range(t)
                        &&& u.state == t.state
                        &&& u.readonly == t.readonly
                        &&& u.work@.len() == t.work@.len()
                        &&& forall|i: int|
                            0 <= i < t.work@.len() && i != self.handle ==> u.work@[i] == t.work@[i]
                        &&& self.store_of(u).same_config(self.store_of(t))
                        &&& ({
                            let s = self.store_of(t);
                            let s2 = self.store_of(u);
                            if !s.has_key(key@) {
                                s2.contents() == s.contents().insert(
                                    s.lb(key@),
                                    (key@, seq![value@]),
                                )
                            } else if !s.dup_allowed {
                                s2.contents() == s.contents().update(s.lb(key@), (key@, seq![value@]))
                            } else {
                                s2.contents() == s.contents().update(
                                    s.lb(key@),
                                    (
                                        key@,
                                        crate::store::dup_put(
                                            s.vals_at(s.lb(key@)),
                                            s.dup_order,
                                            value@,
                                        ),
                                    ),
                                )
                            }
                        })
                    },
                    Err(e) => {
                        &&& u == t
                        &&& if !(t.state is Normal) {
                            e is StateError
                        } else if !self.in_range(t) {
                            e matches MdbError::Other(c, _) && c == MDB_BAD_DBI
                        } else {
                            t.readonly && (e matches MdbError::Other(c, _) && c == EACCES)
                        }
                    },
                }
            }),
    {
        check_normal("set", txn.get_state())?;
        let inner = txn.txn_mut();
        if self.handle >= inner.work.len() {
            return Err(MdbError::new_with_code(MDB_BAD_DBI));
        }
        if inner.readonly {
            return Err(MdbError::new_with_code(EACCES));
        }
        let ghost pre = inner.work@;
        let mut st = inner.work.remove(self.handle);
        let res = st.put(key, value);
        inner.work.insert(self.handle, st);
        proof {
            assert(inner.work@ =~= pre.update(self.handle as int, inner.work@[self.handle as int]));
        }
        res
    }

    /// Store `value` under `key`, failing `KeyExists` when the key is
    /// already present — even when duplicates are allowed.
    pub fn insert<T: Txn>(&self, key: &Vec<u8>, value: &Vec<u8>, txn: &mut T) -> (r: MdbResult<()>)
        requires
            old(txn).txn_view().wf(),
        ensures
            final(txn).txn_view().wf(),
            ({
                let t = old(txn).txn_view();
                let u = final(txn).txn_view();
                match r {
                    Ok(()) => {
                        &&& t.state is Normal
                        &&& !t.readonly
                        &&& self.in_range(t)
                        &&& write_frame(*self, t, u)
                        &&& !self.store_of(t).has_key(key@)
                        &&& self.store_of(u).contents() == self.store_of(t).contents().insert(
                            self.store_of(t).lb(key@),
                            (key@, seq![value@]),
                        )
                    },
                    Err(e) => {
                        &&& if !(t.state is Normal) {
                            u == t && e is StateError
                        } else if !self.in_range(t) {
                            u == t && (e matches MdbError::Other(c, _) && c == MDB_BAD_DBI)
                        } else if t.readonly {
                            u == t && (e matches MdbError::Other(c, _) && c == EACCES)
                        } else {
                            &&& write_frame(*self, t, u)
                            &&& self.store_of(u).contents() == self.store_of(t).contents()
                            &&& e == MdbError::KeyExists
                            &&& self.store_of(t).has_key(key@)
                        }
                    },
                }
            }),
    {
        check_normal("insert", txn.get_state())?;
        let inner = txn.txn_mut();
        if self.handle >= inner.work.len() {
            return Err(MdbError::new_with_code(MDB_BAD_DBI));
        }
        if inner.readonly {
            return Err(MdbError::new_with_code(EACCES));
        }
        let ghost pre = inner.work@;
        let mut st = inner.work.remove(self.handle);
        let res = st.put_no_overwrite(key, value);
        inner.work.insert(self.handle, st);
        proof {
            assert(inner.work@ =~= pre.update(self.handle as int, inner.work@[self.handle as int]));
        }
        res
    }

    /// Append a new key/value pair; the key must sort strictly after
    /// every key already present, else `KeyExists`.
    pub fn append<T: Txn>(&self, key: &Vec<u8>, value: &Vec<u8>, txn: &mut T) -> (r: MdbResult<()>)
        requires
            old(txn).txn_view().wf(),
        ensures
            final(txn).txn_view().wf(),
            ({
                let t = old(txn).txn_view();
                let u = final(txn).txn_view();
                match r {
                    Ok(()) => {
                        &&& t.state is Normal
                        &&& !t.readonly
                        &&& self.in_range(t)
                        &&& write_frame(*self, t, u)
                        &&& ({
                            let s = self.store_of(t);
                            let n = s.contents().len();
                            &&& (n == 0 || crate::order::ord_cmp(
                                s.key_order,
                                s.keys()[n - 1],
                                key@,
                            ) < 0)
                            &&& self.store_of(u).contents() == s.contents().push(
                                (key@, seq![value@]),
                            )
                        })
                    },
                    Err(e) => {
                        &&& if !(t.state is Normal) {
                            u == t && e is StateError
                        } else if !self.in_range(t) {
                            u == t && (e matches MdbError::Other(c, _) && c == MDB_BAD_DBI)
                        } else if t.readonly {
                            u == t && (e matches MdbError::Other(c, _) && c == EACCES)
                        } else {
                            &&& write_frame(*self, t, u)
                            &&& self.store_of(u).contents() == self.store_of(t).contents()
                            &&& e == MdbError::KeyExists
                            &&& ({
                                let s = self.store_of(t);
                                let n = s.contents().len();
                                n > 0 && crate::order::ord_cmp(s.key_order, s.keys()[n - 1], key@)
                                    >= 0
                            })
                        }
                    },
                }
            }),
    {
        check_normal("append", txn.get_state())?;
        let inner = txn.txn_mut();
        if self.handle >= inner.work.len() {
            return Err(MdbError::new_with_code(MDB_BAD_DBI));
        }
        if inner.readonly {
            return Err(MdbError::new_with_code(EACCES));
        }
        let ghost pre = inner.work@;
        let mut st = inner.work.remove(self.handle);
        let res = st.put_append(key, value);
        inner.work.insert(self.handle, st);
        proof {
            assert(inner.work@ =~= pre.update(self.handle as int, inner.work@[self.handle as int]));
        }
        res
    }

    /// Append a new value under the last key (which must equal `key`),
    /// sorting after every value already there; needs duplicates.
    pub fn append_duplicate<T: Txn>(&self, key: &Vec<u8>, value: &Vec<u8>, txn: &mut T) -> (r:
        MdbResult<()>)
        requires
            old(txn).txn_view().wf(),
        ensures
            final(txn).txn_view().wf(),
            ({
                let t = old(txn).txn_view();
                let u = final(txn).txn_view();
                match r {
                    Ok(()) => {
                        &&& t.state is Normal
                        &&& !t.readonly
                        &&& self.in_range(t)
                        &&& write_frame(*self, t, u)
                        &&& ({
                            let s = self.store_of(t);
                            let n = s.contents().len();
                            &&& s.dup_allowed
                            &&& if n == 0 || crate::order::ord_cmp(
                                s.key_order,
                                s.keys()[n - 1],
                                key@,
                            ) < 0 {
                                self.store_of(u).contents() == s.contents().push(
                                    (key@, seq![value@]),
                                )
                            } else {
                                &&& s.keys()[n - 1] == key@
                                &&& crate::order::ord_cmp(
                                    s.dup_order,
                                    s.vals_at(n - 1).last(),
                                    value@,
                                ) < 0
                                &&& self.store_of(u).contents() == s.contents().update(
                                    n - 1,
                                    (key@, s.vals_at(n - 1).push(value@)),
                                )
                            }
                        })
                    },
                    Err(e) => {
                        &&& if !(t.state is Normal) {
                            u == t && e is StateError
                        } else if !self.in_range(t) {
                            u == t && (e matches MdbError::Other(c, _) && c == MDB_BAD_DBI)
                        } else if t.readonly {
                            u == t && (e matches MdbError::Other(c, _) && c == EACCES)
                        } else {
                            &&& write_frame(*self, t, u)
                            &&& self.store_of(u).contents() == self.store_of(t).contents()
                            &&& if !self.store_of(t).dup_allowed {
                                e matches MdbError::Other(c, _) && c == EINVAL
                            } else {
                                &&& e == MdbError::KeyExists
                                &&& ({
                                    let s = self.store_of(t);
                                    let n = s.contents().len();
                                    &&& !(n == 0 || crate::order::ord_cmp(
                                        s.key_order,
                                        s.keys()[n - 1],
                                        key@,
                                    ) < 0)
                                    &&& !(s.keys()[n - 1] == key@ && crate::order::ord_cmp(
                                        s.dup_order,
                                        s.vals_at(n - 1).last(),
                                        value@,
                                    ) < 0)
                                })
                            }
                        }
                    },
                }
            }),
    {
        check_normal("append_duplicate", txn.get_state())?;
        let inner = txn.txn_mut();
        if self.handle >= inner.work.len() {
            return Err(MdbError::new_with_code(MDB_BAD_DBI));
        }
        if inner.readonly {
            return Err(MdbError::new_with_code(EACCES));
        }
        let ghost pre = inner.work@;
        let mut st = inner.work.remove(self.handle);
        let res = st.put_append_dup(key, value);
        inner.work.insert(self.handle, st);
        proof {
            assert(inner.work@ =~= pre.update(self.handle as int, inner.work@[self.handle as int]));
        }
        res
    }

    /// Delete `key` together with every value stored under it; an
    /// absent key fails `NotFound`.
    pub fn del<T: Txn>(&self, key: &Vec<u8>, txn: &mut T) -> (r: MdbResult<()>)
        requires
            old(txn).txn_view().wf(),
        ensures
            final(txn).txn_view().wf(),
            ({
                let t = old(txn).txn_view();
                let u = final(txn).txn_view();
                match r {
                    Ok(()) => {
                        &&& t.state is Normal
                        &&& !t.readonly
                        &&& self.in_range(t)
                        &&& write_frame(*self, t, u)
                        &&& self.store_of(t).has_key(key@)
                        &&& self.store_of(u).contents() == self.store_of(t).contents().remove(
                            self.store_of(t).lb(key@),
                        )
                    },
                    Err(e) => {
                        &&& if !(t.state is Normal) {
                            u == t && e is StateError
                        } else if !self.in_range(t) {
                            u == t && (e matches MdbError::Other(c, _) && c == MDB_BAD_DBI)
                        } else if t.readonly {
                            u == t && (e matches MdbError::Other(c, _) && c == EACCES)
                        } else {
                            &&& write_frame(*self, t, u)
                            &&& self.store_of(u).contents() == self.store_of(t).contents()
                            &&& e == MdbError::NotFound
                            &&& !self.store_of(t).has_key(key@)
                        }
                    },
                }
            }),
    {
        check_normal("del", txn.get_state())?;
        let inner = txn.txn_mut();
        if self.handle >= inner.work.len() {
            return Err(MdbError::new_with_code(MDB_BAD_DBI));
        }
        if inner.readonly {
            return Err(MdbError::new_with_code(EACCES));
        }
        let ghost pre = inner.work@;
        let mut st = inner.work.remove(self.handle);
        let res = st.del_key(key);
        inner.work.insert(self.handle, st);
        proof {
            assert(inner.work@ =~= pre.update(self.handle as int, inner.work@[self.handle as int]));
        }
        res
    }

    /// Delete one (key, value) pair.  Meaningful with duplicates; on a
    /// single-value database the value is ignored and the key removed,
    /// as the engine does.
    pub fn del_item<T: Txn>(&self, key: &Vec<u8>, data: &Vec<u8>, txn: &mut T) -> (r: MdbResult<
        (),
    >)
        requires
            old(txn).txn_view().wf(),
        ensures
            final(txn).txn_view().wf(),
            ({
                let t = old(txn).txn_view();
                let u = final(txn).txn_view();
                match r {
                    Ok(()) => {
                        &&& t.state is Normal
                        &&& !t.readonly
                        &&& self.in_range(t)
                        &&& write_frame(*self, t, u)
                        &&& ({
                            let s = self.store_of(t);
                            let s2 = self.store_of(u);
                            if !s.dup_allowed {
                                s.has_key(key@) && s2.contents() == s.contents().remove(s.lb(key@))
                            } else {
                                &&& s.has_item(key@, data@)
                                &&& ({
                                    let l = s.lb(key@);
                                    let vs = s.vals_at(l);
                                    let vl = crate::store::lower_bound(vs, s.dup_order, data@);
                                    if vs.len() == 1 {
                                        s2.contents() == s.contents().remove(l)
                                    } else {
                                        s2.contents() == s.contents().update(
                                            l,
                                            (s.keys()[l], vs.remove(vl)),
                                        )
                                    }
                                })
                            }
                        })
                    },
                    Err(e) => {
                        &&& if !(t.state is Normal) {
                            u == t && e is StateError
                        } else if !self.in_range(t) {
                            u == t && (e matches MdbError::Other(c, _) && c == MDB_BAD_DBI)
                        } else if t.readonly {
                            u == t && (e matches MdbError::Other(c, _) && c == EACCES)
                        } else {
                            &&& write_frame(*self, t, u)
                            &&& self.store_of(u).contents() == self.store_of(t).contents()
                            &&& e == MdbError::NotFound
                            &&& ({
                                let s = self.store_of(t);
                                if !s.dup_allowed {
                                    !s.has_key(key@)
                                } else {
                                    !s.has_item(key@, data@)
                                }
                            })
                        }
                    },
                }
            }),
    {
        check_normal("del_item", txn.get_state())?;
        let inner = txn.txn_mut();
        if self.handle >= inner.work.len() {
            return Err(MdbError::new_with_code(MDB_BAD_DBI));
        }
        if inner.readonly {
            return Err(MdbError::new_with_code(EACCES));
        }
        let ghost pre = inner.work@;
        let mut st = inner.work.remove(self.handle);
        let res = st.del_exact(key, data);
        inner.work.insert(self.handle, st);
        proof {
            assert(inner.work@ =~= pre.update(self.handle as int, inner.work@[self.handle as int]));
        }
        res
    }

    /// Remove every key and value; the handle stays valid.
    pub fn clear<T: Txn>(&self, txn: &mut T) -> (r: MdbResult<()>)
        requires
            old(txn).txn_view().wf(),
        ensures
            final(txn).txn_view().wf(),
            ({
                let t = old(txn).txn_view();
                let u = final(txn).txn_view();
                match r {
                    Ok(()) => {
                        &&& t.state is Normal
                        &&& !t.readonly
                        &&& self.in_range(t)
                        &&& write_frame(*self, t, u)
                        &&& self.store_of(u).contents() == Seq::<(Seq<u8>, Seq<Seq<u8>>)>::empty()
                    },
                    Err(e) => {
                        &&& u == t
                        &&& if !(t.state is Normal) {
                            e is StateError
                        } else if !self.in_range(t) {
                            e matches MdbError::Other(c, _) && c == MDB_BAD_DBI
                        } else {
                            t.readonly && (e matches MdbError::Other(c, _) && c == EACCES)
                        }
                    },
                }
            }),
    {
        check_normal("clear", txn.get_state())?;
        let inner = txn.txn_mut();
        if self.handle >= inner.work.len() {
            return Err(MdbError::new_with_code(MDB_BAD_DBI));
        }
        if inner.readonly {
            return Err(MdbError::new_with_code(EACCES));
        }
        let ghost pre = inner.work@;
        let mut st = inner.work.remove(self.handle);
        st.clear_store();
        inner.work.insert(self.handle, st);
        proof {
            assert(inner.work@ =~= pre.update(self.handle as int, inner.work@[self.handle as int]));
        }
        Ok(())
    }

    /// Drop the database for good: its data is removed and its cache
    /// entry invalidated; the handle must not be used again.
    pub fn del_db<T: Txn>(self, env: &mut crate::environment::Environment, txn: &mut T) -> (r:
        MdbResult<()>)
        requires
            old(txn).txn_view().wf(),
            old(env).wf(),
        ensures
            final(txn).txn_view().wf(),
            final(env).wf(),
            ({
                let t = old(txn).txn_view();
                let u = final(txn).txn_view();
                match r {
                    Ok(()) => {
                        &&& t.state is Normal
                        &&& !t.readonly
                        &&& self.in_range(t)
                        &&& write_frame(self, t, u)
                        &&& self.store_of(u).contents() == Seq::<(Seq<u8>, Seq<Seq<u8>>)>::empty()
                        &&& ({
                            let found = crate::environment::cache_find_handle(
                                old(env).cache@,
                                self.handle,
                            );
                            match found {
                                Some(i) => final(env).cache@ == old(env).cache@.remove(i)
                                    && final(env).stores@ == old(env).stores@,
                                None => *final(env) == *old(env),
                            }
                        })
                    },
                    Err(e) => {
                        &&& u == t
                        &&& *final(env) == *old(env)
                        &&& if !(t.state is Normal) {
                            e is StateError
                        } else if !self.in_range(t) {
                            e matches MdbError::Other(c, _) && c == MDB_BAD_DBI
                        } else {
                            t.readonly && (e matches MdbError::Other(c, _) && c == EACCES)
                        }
                    },
                }
            }),
    {
        check_normal("del_db", txn.get_state())?;
        let inner = txn.txn_mut();
        if self.handle >= inner.work.len() {
            return Err(MdbError::new_with_code(MDB_BAD_DBI));
        }
        if inner.readonly {
            return Err(MdbError::new_with_code(EACCES));
        }
        env.drop_db_from_cache(self.handle);
        let ghost pre = inner.work@;
        let mut st = inner.work.remove(self.handle);
        st.clear_store();
        inner.work.insert(self.handle, st);
        proof {
            assert(inner.work@ =~= pre.update(self.handle as int, inner.work@[self.handle as int]));
        }
        Ok(())
    }

    /// This database's statistics under the given transaction: its
    /// number of keys.
    pub fn stat<T: Txn>(&self, txn: &T) -> (r: MdbResult<Stat>)
        requires
            txn.txn_view().wf(),
        ensures
            ({
                let t = txn.txn_view();
                match r {
                    Ok(st) => t.state is Normal && self.in_range(t) && st.entries == self.store_of(
                        t,
                    ).contents().len(),
                    Err(e) => {
                        if !(t.state is Normal) {
                            e is StateError
                        } else {
                            !self.in_range(t) && (e matches MdbError::Other(c, _) && c
                                == MDB_BAD_DBI)
                        }
                    },
                }
            }),
    {
        check_normal("stat", txn.get_state())?;
        let inner = txn.txn_ref();
        if self.handle >= inner.work.len() {
            return Err(MdbError::new_with_code(MDB_BAD_DBI));
        }
        Ok(Stat { entries: inner.work[self.handle].num_entries() })
    }

    /// Install the key comparison order.  Must be called before any
    /// data access on this handle: on a table with data the request is
    /// refused, where the engine would corrupt the sort order instead.
    pub fn set_compare<T: Txn>(&self, order: crate::order::KeyOrder, txn: &mut T) -> (r: MdbResult<
        (),
    >)
        requires
            old(txn).txn_view().wf(),
        ensures
            final(txn).txn_view().wf(),
            ({
                let t = old(txn).txn_view();
                let u = final(txn).txn_view();
                match r {
                    Ok(()) => {
                        &&& t.state is Normal
                        &&& self.in_range(t)
                        &&& self.store_of(t).contents().len() == 0
                        &&& u.state == t.state
                        &&& u.readonly == t.readonly
                        &&& u.work@ == t.work@.update(
                            self.handle as int,
                            (DbStore { key_order: order, ..self.store_of(t) }),
                        )
                    },
                    Err(e) => {
                        &&& u == t
                        &&& if !(t.state is Normal) {
                            e is StateError
                        } else if !self.in_range(t) {
                            e matches MdbError::Other(c, _) && c == MDB_BAD_DBI
                        } else {
                            self.store_of(t).contents().len() > 0 && (e matches MdbError::Other(
                                c,
                                _,
                            ) && c == EINVAL)
                        }
                    },
                }
            }),
    {
        check_normal("set_compare", txn.get_state())?;
        let inner = txn.txn_mut();
        if self.handle >= inner.work.len() {
            return Err(MdbError::new_with_code(MDB_BAD_DBI));
        }
        if inner.work[self.handle].num_entries() > 0 {
            return Err(MdbError::new_with_code(EINVAL));
        }
        let ghost pre = inner.work@;
        let mut st = inner.work.remove(self.handle);
        let res = st.install_key_order(order);
        inner.work.insert(self.handle, st);
        proof {
            assert(inner.work@ =~= pre.update(self.handle as int, inner.work@[self.handle as int]));
        }
        res
    }

    /// Install the comparison order of the duplicate values under one
    /// key.  Must be called before any data access on this handle, as
    /// with `set_compare`; only used when duplicates are allowed.
    pub fn set_dupsort<T: Txn>(&self, order: crate::order::KeyOrder, txn: &mut T) -> (r: MdbResult<
        (),
    >)
        requires
            old(txn).txn_view().wf(),
        ensures
            final(txn).txn_view().wf(),
            ({
                let t = old(txn).txn_view();
                let u = final(txn).txn_view();
                match r {
                    Ok(()) => {
                        &&& t.state is Normal
                        &&& self.in_range(t)
                        &&& self.store_of(t).contents().len() == 0
                        &&& u.state == t.state
                        &&& u.readonly == t.readonly
                        &&& u.work@ == t.work@.update(
                            self.handle as int,
                            (DbStore { dup_order: order, ..self.store_of(t) }),
                        )
                    },
                    Err(e) => {
                        &&& u == t
                        &&& if !(t.state is Normal) {
                            e is StateError
                        } else if !self.in_range(t) {
                            e matches MdbError::Other(c, _) && c == MDB_BAD_DBI
                        } else {
                            self.store_of(t).contents().len() > 0 && (e matches MdbError::Other(
                                c,
                                _,
                            ) && c == EINVAL)
                        }
                    },
                }
            }),
    {
        check_normal("set_dupsort", txn.get_state())?;
        let inner = txn.txn_mut();
        if self.handle >= inner.work.len() {
            return Err(MdbError::new_with_code(MDB_BAD_DBI));
        }
        if inner.work[self.handle].num_entries() > 0 {
            return Err(MdbError::new_with_code(EINVAL));
        }
        let ghost pre = inner.work@;
        let mut st = inner.work.remove(self.handle);
        let res = st.install_dup_order(order);
        inner.work.insert(self.handle, st);
        proof {
            assert(inner.work@ =~= pre.update(self.handle as int, inner.work@[self.handle as int]));
        }
        res
    }
}

impl Database {
    /// Open a cursor over this database under `txn`.
    pub fn new_cursor<T: Txn>(&self, txn: &T) -> (r: MdbResult<crate::cursor::Cursor>)
        requires
            txn.txn_view().wf(),
        ensures
            ({
                let t = txn.txn_view();
                match r {
                    Ok(c) => t.state is Normal && self.in_range(t) && c == (crate::cursor::Cursor {
                        db: self.handle,
                        pos: crate::cursor::CursorPos::Unset,
                        valid_key: false,
                        valid_value: false,
                    }),
                    Err(e) => {
                        if !(t.state is Normal) {
                            e is StateError
                        } else {
                            !self.in_range(t) && (e matches MdbError::Other(c, _) && c
                                == MDB_BAD_DBI)
                        }
                    },
                }
            }),
    {
        crate::cursor::Cursor::new(txn, self.handle)
    }

    /// An iterator over the whole database, one pair per key.
    pub fn iter<T: Txn>(&self, txn: &T) -> (r: MdbResult<
        crate::iter::CursorIterator<crate::iter::CursorIter>,
    >)
        requires
            txn.txn_view().wf(),
        ensures
            ({
                let t = txn.txn_view();
                match r {
                    Ok(it) => {
                        &&& t.state is Normal
                        &&& self.in_range(t)
                        &&& it.wf_iter(t)
                        &&& it.emitted@ == 0
                        &&& it.cursor.db == self.handle
                    },
                    Err(e) => {
                        if !(t.state is Normal) {
                            e is StateError
                        } else {
                            !self.in_range(t) && (e matches MdbError::Other(c, _) && c
                                == MDB_BAD_DBI)
                        }
                    },
                }
            }),
    {
        let cursor = self.new_cursor(txn)?;
        Ok(crate::iter::CursorIterator::wrap(cursor, crate::iter::CursorIter, txn))
    }

    /// An iterator from `start_key` (inclusive) to the end, one pair
    /// per key.
    pub fn keyrange_from<T: Txn>(&self, start_key: &Vec<u8>, txn: &T) -> (r: MdbResult<
        crate::iter::CursorIterator<crate::iter::CursorFromKeyIter>,
    >)
        requires
            txn.txn_view().wf(),
        ensures
            ({
                let t = txn.txn_view();
                match r {
                    Ok(it) => {
                        &&& t.state is Normal
                        &&& self.in_range(t)
                        &&& it.wf_iter(t)
                        &&& it.emitted@ == 0
                        &&& it.cursor.db == self.handle
                        &&& it.inner.start_key@ == start_key@
                    },
                    Err(e) => {
                        if !(t.state is Normal) {
                            e is StateError
                        } else {
                            !self.in_range(t) && (e matches MdbError::Other(c, _) && c
                                == MDB_BAD_DBI)
                        }
                    },
                }
            }),
    {
        let cursor = self.new_cursor(txn)?;
        let key_range = crate::iter::CursorFromKeyIter::new(start_key);
        Ok(crate::iter::CursorIterator::wrap(cursor, key_range, txn))
    }

    /// An iterator over the keys strictly before `end_key`, one pair
    /// per key.
    pub fn keyrange_to<T: Txn>(&self, end_key: &Vec<u8>, txn: &T) -> (r: MdbResult<
        crate::iter::CursorIterator<crate::iter::CursorToKeyIter>,
    >)
        requires
            txn.txn_view().wf(),
        ensures
            ({
                let t = txn.txn_view();
                match r {
                    Ok(it) => {
                        &&& t.state is Normal
                        &&& self.in_range(t)
                        &&& it.wf_iter(t)
                        &&& it.emitted@ == 0
                        &&& it.cursor.db == self.handle
                        &&& it.inner.end_key@ == end_key@
                    },
                    Err(e) => {
                        if !(t.state is Normal) {
                            e is StateError
                        } else {
                            !self.in_range(t) && (e matches MdbError::Other(c, _) && c
                                == MDB_BAD_DBI)
                        }
                    },
                }
            }),
    {
        let cursor = self.new_cursor(txn)?;
        let key_range = crate::iter::CursorToKeyIter::new(end_key);
        Ok(crate::iter::CursorIterator::wrap(cursor, key_range, txn))
    }

    /// An iterator over `start_key <= key < end_key`, one pair per
    /// key.
    pub fn keyrange_from_to<T: Txn>(&self, start_key: &Vec<u8>, end_key: &Vec<u8>, txn: &T) -> (r:
        MdbResult<crate::iter::CursorIterator<crate::iter::CursorKeyRangeIter>>)
        requires
            txn.txn_view().wf(),
        ensures
            ({
                let t = txn.txn_view();
                match r {
                    Ok(it) => {
                        &&& t.state is Normal
                        &&& self.in_range(t)
                        &&& it.wf_iter(t)
                        &&& it.emitted@ == 0
                        &&& it.cursor.db == self.handle
                        &&& it.inner.start_key@ == start_key@
                        &&& it.inner.end_key@ == end_key@
                        &&& !it.inner.end_inclusive
                    },
                    Err(e) => {
                        if !(t.state is Normal) {
                            e is StateError
                        } else {
                            !self.in_range(t) && (e matches MdbError::Other(c, _) && c
                                == MDB_BAD_DBI)
                        }
                    },
                }
            }),
    {
        let cursor = self.new_cursor(txn)?;
        let key_range = crate::iter::CursorKeyRangeIter::new(start_key, end_key, false);
        Ok(crate::iter::CursorIterator::wrap(cursor, key_range, txn))
    }

    /// An iterator over `start_key <= key <= end_key`, both ends
    /// included, one pair per key.
    pub fn keyrange<T: Txn>(&self, start_key: &Vec<u8>, end_key: &Vec<u8>, txn: &T) -> (r:
        MdbResult<crate::iter::CursorIterator<crate::iter::CursorKeyRangeIter>>)
        requires
            txn.txn_view().wf(),
        ensures
            ({
                let t = txn.txn_view();
                match r {
                    Ok(it) => {
                        &&& t.state is Normal
                        &&& self.in_range(t)
                        &&& it.wf_iter(t)
                        &&& it.emitted@ == 0
                        &&& it.cursor.db == self.handle
                        &&& it.inner.start_key@ == start_key@
                        &&& it.inner.end_key@ == end_key@
                        &&& it.inner.end_inclusive
                    },
                    Err(e) => {
                        if !(t.state is Normal) {
                            e is StateError
                        } else {
                            !self.in_range(t) && (e matches MdbError::Other(c, _) && c
                                == MDB_BAD_DBI)
                        }
                    },
                }
            }),
    {
        let cursor = self.new_cursor(txn)?;
        let key_range = crate::iter::CursorKeyRangeIter::new(start_key, end_key, true);
        Ok(crate::iter::CursorIterator::wrap(cursor, key_range, txn))
    }

    /// An iterator over every value stored under one key.
    pub fn item_iter<T: Txn>(&self, key: &Vec<u8>, txn: &T) -> (r: MdbResult<
        crate::iter::CursorIterator<crate::iter::CursorItemIter>,
    >)
        requires
            txn.txn_view().wf(),
        ensures
            ({
                let t = txn.txn_view();
                match r {
                    Ok(it) => {
                        &&& t.state is Normal
                        &&& self.in_range(t)
                        &&& it.wf_iter(t)
                        &&& it.emitted@ == 0
                        &&& it.cursor.db == self.handle
                        &&& it.inner.key@ == key@
                    },
                    Err(e) => {
                        if !(t.state is Normal) {
                            e is StateError
                        } else {
                            !self.in_range(t) && (e matches MdbError::Other(c, _) && c
                                == MDB_BAD_DBI)
                        }
                    },
                }
            }),
    {
        let cursor = self.new_cursor(txn)?;
        let inner_iter = crate::iter::CursorItemIter::new(key);
        Ok(crate::iter::CursorIterator::wrap(cursor, inner_iter, txn))
    }
}

/// A write through `db` left every other table alone and kept the
/// state, the read-only flag and the table's configuration.
pub open spec fn write_frame(
    db: Database,
    t: crate::transaction::NativeTransaction,
    u: crate::transaction::NativeTransaction,
) -> bool {
    &&& u.state == t.state
    &&& u.readonly == t.readonly
    &&& u.work@.len() == t.work@.len()
    &&& forall|i: int| 0 <= i < t.work@.len() && i != db.handle ==> u.work@[i] == t.work@[i]
    &&& db.store_of(u).same_config(db.store_of(t))
}

} // verus!
