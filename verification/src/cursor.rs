//! Cursors: stateful navigation, with mutation, over one database
//! within one transaction.
//!
//! A cursor tracks a current position — a key index and the index of
//! one value under that key — together with two validity flags.  The
//! flags mirror the engine's memory rules: a navigation that does not
//! hand back engine-owned memory leaves the corresponding flag false,
//! and a read through the cursor then re-fetches from the engine
//! before trusting the bytes.  Here the table itself answers every
//! read, so the flags carry no risk; they are kept because the
//! embedding over the real engine relies on the same bookkeeping.
//!
//! The engine has no native "move to the last key at most `k`"
//! operation.  The `move_to_lte_key` family synthesizes it: seek to
//! the first key at least `k`; if that overshoots (or finds nothing),
//! step back one key.  The contracts below pin the result exactly: the
//! greatest key that does not exceed the target, or `NotFound` when
//! every key exceeds it.

use vstd::prelude::*;

use crate::error::{MdbError, MdbResult, EINVAL, MDB_BAD_DBI, EACCES};
use crate::order::{key_compare, ord_cmp};
use crate::store::{
    clone_bytes, lemma_absent_when_bound_misses, lemma_bounds_relation, lemma_lower_bound,
    lower_bound, sorted_under, upper_bound, DbStore,
};
use crate::transaction::{check_normal, NativeTransaction, Txn};

verus! {

/// Where a cursor stands: nowhere yet, on one value of one key, or
/// past the last key after an overshooting seek.
#[derive(Clone, Copy, PartialEq, Eq, Structural, Debug)]
pub enum CursorPos {
    /// Not positioned.
    Unset,
    /// On the `j`-th value of the `i`-th key.
    At(usize, usize),
    /// Past the last key.
    PastEnd,
}

/// A cursor over one database within one transaction.  The cursor
/// itself holds no borrow; every operation takes the transaction it
/// was created under, and must be given that same transaction — the
/// position is meaningless against any other.
pub struct Cursor {
    /// The database handle this cursor iterates.
    pub db: usize,
    /// The current position.
    pub pos: CursorPos,
    /// Whether the key bytes at the position are engine-owned.
    pub valid_key: bool,
    /// Whether the value bytes at the position are engine-owned.
    pub valid_value: bool,
}

impl Cursor {
    /// The table this cursor iterates in the given transaction view.
    pub open spec fn store_of(self, t: NativeTransaction) -> DbStore {
        t.work@[self.db as int]
    }

    /// What every cursor operation checks first: a `Normal`
    /// transaction and a handle in range.
    pub open spec fn gate_ok(self, t: NativeTransaction) -> bool {
        t.state is Normal && self.db < t.work@.len()
    }

    /// The error when that check fails: a `StateError` outside
    /// `Normal`, a stale-handle report otherwise.
    pub open spec fn gate_err(self, t: NativeTransaction, e: MdbError) -> bool {
        if !(t.state is Normal) {
            e is StateError
        } else {
            self.db >= t.work@.len() && (e matches MdbError::Other(c, _) && c == MDB_BAD_DBI)
        }
    }

    /// The position as indices into the table, when it denotes one.
    pub open spec fn cur(self, s: DbStore) -> Option<(int, int)> {
        match self.pos {
            CursorPos::At(i, j) => {
                if i < s.contents().len() && j < s.vals_at(i as int).len() {
                    Some((i as int, j as int))
                } else {
                    None
                }
            },
            _ => None,
        }
    }

    /// Everything but the position and the flags.
    pub open spec fn same_cursor(self, other: Cursor) -> bool {
        self.db == other.db
    }

    /// Open a cursor over `db` under `txn`; it starts unpositioned.
    pub fn new<T: Txn>(txn: &T, db: usize) -> (r: MdbResult<Cursor>)
        requires
            txn.txn_view().wf(),
        ensures
            ({
                let t = txn.txn_view();
                match r {
                    Ok(c) => t.state is Normal && db < t.work@.len() && c == (Cursor {
                        db,
                        pos: CursorPos::Unset,
                        valid_key: false,
                        valid_value: false,
                    }),
                    Err(e) => {
                        if !(t.state is Normal) {
                            e is StateError
                        } else {
                            db >= t.work@.len() && (e matches MdbError::Other(c, _) && c
                                == MDB_BAD_DBI)
                        }
                    },
                }
            }),
    {
        check_normal("cursor", txn.get_state())?;
        if db >= txn.txn_ref().work.len() {
            return Err(MdbError::new_with_code(MDB_BAD_DBI));
        }
        Ok(Cursor { db, pos: CursorPos::Unset, valid_key: false, valid_value: false })
    }

    /// Run the checks every operation starts with, or say why not.
    fn gate<T: Txn>(&self, txn: &T) -> (r: MdbResult<()>)
        ensures
            match r {
                Ok(()) => self.gate_ok(txn.txn_view()),
                Err(e) => self.gate_err(txn.txn_view(), e),
            },
    {
        check_normal("cursor", txn.get_state())?;
        if self.db >= txn.txn_ref().work.len() {
            return Err(MdbError::new_with_code(MDB_BAD_DBI));
        }
        Ok(())
    }

    /// The current indices, when the position denotes a live entry of
    /// the table.
    fn current(&self, s: &DbStore) -> (r: Option<(usize, usize)>)
        ensures
            match r {
                Some(p) => self.pos == CursorPos::At(p.0, p.1) && p.0 < s.contents().len() && p.1
                    < s.vals_at(p.0 as int).len() && self.cur(*s) == Some((p.0 as int, p.1 as int)),
                None => self.cur(*s) is None,
            },
    {
        match self.pos {
            CursorPos::At(i, j) => {
                if i < s.num_entries() {
                    if j < s.num_vals(i) {
                        return Some((i, j));
                    }
                }
                None
            },
            _ => None,
        }
    }

    /// Move to the first entry: the first value of the first key.
    pub fn move_to_first<T: Txn>(&mut self, txn: &T) -> (r: MdbResult<()>)
        requires
            txn.txn_view().wf(),
        ensures
            final(self).same_cursor(*old(self)),
            ({
                let t = txn.txn_view();
                let s = old(self).store_of(t);
                match r {
                    Ok(()) => old(self).gate_ok(t) && s.contents().len() > 0 && final(self).valid_key && final(self).valid_value && final(self).cur(s) == Some(
                        (0int, 0int),
                    ),
                    Err(e) => {
                        if !old(self).gate_ok(t) {
                            old(self).gate_err(t, e) && *final(self) == *old(self)
                        } else {
                            s.contents().len() == 0 && e == MdbError::NotFound && *final(self)
                                == (Cursor {
                                pos: CursorPos::Unset,
                                valid_key: false,
                                valid_value: false,
                                ..*old(self)
                            })
                        }
                    },
                }
            }),
    {
        self.gate(txn)?;
        self.valid_key = false;
        self.valid_value = false;
        let s = &txn.txn_ref().work[self.db];
        if s.num_entries() == 0 {
            self.pos = CursorPos::Unset;
            return Err(MdbError::NotFound);
        }
        assert(s.vals_at(0).len() >= 1);
        self.pos = CursorPos::At(0, 0);
        self.valid_key = true;
        self.valid_value = true;
        Ok(())
    }

    /// Move to the last entry: the last value of the last key.
    pub fn move_to_last<T: Txn>(&mut self, txn: &T) -> (r: MdbResult<()>)
        requires
            txn.txn_view().wf(),
        ensures
            final(self).same_cursor(*old(self)),
            ({
                let t = txn.txn_view();
                let s = old(self).store_of(t);
                let n = s.contents().len();
                match r {
                    Ok(()) => old(self).gate_ok(t) && n > 0 && final(self).valid_key && final(self).valid_value && final(self).cur(s) == Some(
                        (n - 1, s.vals_at(n - 1).len() - 1),
                    ),
                    Err(e) => {
                        if !old(self).gate_ok(t) {
                            old(self).gate_err(t, e) && *final(self) == *old(self)
                        } else {
                            n == 0 && e == MdbError::NotFound && *final(self) == (Cursor {
                                pos: CursorPos::Unset,
                                valid_key: false,
                                valid_value: false,
                                ..*old(self)
                            })
                        }
                    },
                }
            }),
    {
        self.gate(txn)?;
        self.valid_key = false;
        self.valid_value = false;
        let s = &txn.txn_ref().work[self.db];
        let n = s.num_entries();
        if n == 0 {
            self.pos = CursorPos::Unset;
            return Err(MdbError::NotFound);
        }
        let m = s.num_vals(n - 1);
        assert(s.vals_at(n - 1).len() >= 1);
        self.pos = CursorPos::At(n - 1, m - 1);
        self.valid_key = true;
        self.valid_value = true;
        Ok(())
    }

    /// Move to the first value of exactly `key`, or fail `NotFound`.
    pub fn move_to_key<T: Txn>(&mut self, key: &Vec<u8>, txn: &T) -> (r: MdbResult<()>)
        requires
            txn.txn_view().wf(),
        ensures
            final(self).same_cursor(*old(self)),
            ({
                let t = txn.txn_view();
                let s = old(self).store_of(t);
                match r {
                    Ok(()) => old(self).gate_ok(t) && s.has_key(key@) && final(self).valid_key
                        && final(self).valid_value && final(self).cur(s) == Some(
                        (s.lb(key@), 0int),
                    ),
                    Err(e) => {
                        if !old(self).gate_ok(t) {
                            old(self).gate_err(t, e) && *final(self) == *old(self)
                        } else {
                            !s.has_key(key@) && e == MdbError::NotFound && *final(self) == (Cursor {
                                valid_key: false,
                                valid_value: false,
                                ..*old(self)
                            })
                        }
                    },
                }
            }),
    {
        self.gate(txn)?;
        self.valid_key = false;
        self.valid_value = false;
        let s = &txn.txn_ref().work[self.db];
        proof {
            lemma_lower_bound(s.keys(), s.key_order, key@);
        }
        let l = s.find_lower_bound(key);
        if l < s.num_entries() {
            let ck = s.key_at(l);
            let c = key_compare(s.key_order, &ck, key);
            proof {
                crate::order::lemma_ord_cmp_eq(s.key_order, s.keys()[l as int], key@);
            }
            if c == 0 {
                assert(s.vals_at(l as int).len() >= 1);
                self.pos = CursorPos::At(l, 0);
                self.valid_key = true;
                self.valid_value = true;
                return Ok(());
            }
        }
        Err(MdbError::NotFound)
    }

    /// Move to the first value of the first key at least `key`, or
    /// fail `NotFound` past the end.
    pub fn move_to_gte_key<T: Txn>(&mut self, key: &Vec<u8>, txn: &T) -> (r: MdbResult<()>)
        requires
            txn.txn_view().wf(),
        ensures
            final(self).same_cursor(*old(self)),
            ({
                let t = txn.txn_view();
                let s = old(self).store_of(t);
                match r {
                    Ok(()) => old(self).gate_ok(t) && s.lb(key@) < s.contents().len() && final(self).valid_key && final(self).valid_value && final(self).cur(s) == Some(
                        (s.lb(key@), 0int),
                    ),
                    Err(e) => {
                        if !old(self).gate_ok(t) {
                            old(self).gate_err(t, e) && *final(self) == *old(self)
                        } else {
                            s.lb(key@) == s.contents().len() && e == MdbError::NotFound && *final(self) == (Cursor {
                                pos: CursorPos::PastEnd,
                                valid_key: false,
                                valid_value: false,
                                ..*old(self)
                            })
                        }
                    },
                }
            }),
    {
        self.gate(txn)?;
        self.valid_key = false;
        self.valid_value = false;
        let s = &txn.txn_ref().work[self.db];
        proof {
            lemma_lower_bound(s.keys(), s.key_order, key@);
        }
        let l = s.find_lower_bound(key);
        if l < s.num_entries() {
            assert(s.vals_at(l as int).len() >= 1);
            self.pos = CursorPos::At(l, 0);
            self.valid_key = true;
            self.valid_value = true;
            Ok(())
        } else {
            self.pos = CursorPos::PastEnd;
            Err(MdbError::NotFound)
        }
    }

    /// Move to the next key, skipping any remaining values of the
    /// current one; from nowhere, to the first key.
    pub fn move_to_next_key<T: Txn>(&mut self, txn: &T) -> (r: MdbResult<()>)
        requires
            txn.txn_view().wf(),
        ensures
            final(self).same_cursor(*old(self)),
            ({
                let t = txn.txn_view();
                let s = old(self).store_of(t);
                let n = s.contents().len();
                match r {
                    Ok(()) => {
                        &&& old(self).gate_ok(t)
                        &&& final(self).valid_key && final(self).valid_value
                        &&& match old(self).cur(s) {
                            Some(p) => p.0 + 1 < n && final(self).cur(s) == Some((p.0 + 1, 0int)),
                            None => old(self).pos is Unset && n > 0 && final(self).cur(s) == Some(
                                (0int, 0int),
                            ),
                        }
                    },
                    Err(e) => {
                        if !old(self).gate_ok(t) {
                            old(self).gate_err(t, e) && *final(self) == *old(self)
                        } else {
                            &&& e == MdbError::NotFound
                            &&& *final(self) == (Cursor {
                                valid_key: false,
                                valid_value: false,
                                ..*old(self)
                            })
                            &&& match old(self).cur(s) {
                                Some(p) => p.0 + 1 >= n,
                                None => !(old(self).pos is Unset) || n == 0,
                            }
                        }
                    },
                }
            }),
    {
        self.gate(txn)?;
        self.valid_key = false;
        self.valid_value = false;
        let s = &txn.txn_ref().work[self.db];
        match self.current(s) {
            Some((i, _)) => {
                let n = s.num_entries();
                if i < n - 1 {
                    assert(s.vals_at(i + 1).len() >= 1);
                    self.pos = CursorPos::At(i + 1, 0);
                    self.valid_key = true;
                    self.valid_value = true;
                    Ok(())
                } else {
                    Err(MdbError::NotFound)
                }
            },
            None => {
                if let CursorPos::Unset = self.pos {
                    if s.num_entries() > 0 {
                        assert(s.vals_at(0).len() >= 1);
                        self.pos = CursorPos::At(0, 0);
                        self.valid_key = true;
                        self.valid_value = true;
                        return Ok(());
                    }
                }
                Err(MdbError::NotFound)
            },
        }
    }

    /// Move to the next value under the current key.
    pub fn move_to_next_item<T: Txn>(&mut self, txn: &T) -> (r: MdbResult<()>)
        requires
            txn.txn_view().wf(),
        ensures
            final(self).same_cursor(*old(self)),
            ({
                let t = txn.txn_view();
                let s = old(self).store_of(t);
                match r {
                    Ok(()) => {
                        &&& old(self).gate_ok(t)
                        &&& final(self).valid_key && final(self).valid_value
                        &&& old(self).cur(s) matches Some(p) && p.1 + 1 < s.vals_at(p.0).len()
                            && final(self).cur(s) == Some((p.0, p.1 + 1))
                    },
                    Err(e) => {
                        if !old(self).gate_ok(t) {
                            old(self).gate_err(t, e) && *final(self) == *old(self)
                        } else {
                            &&& e == MdbError::NotFound
                            &&& *final(self) == (Cursor {
                                valid_key: false,
                                valid_value: false,
                                ..*old(self)
                            })
                            &&& match old(self).cur(s) {
                                Some(p) => p.1 + 1 >= s.vals_at(p.0).len(),
                                None => true,
                            }
                        }
                    },
                }
            }),
    {
        self.gate(txn)?;
        self.valid_key = false;
        self.valid_value = false;
        let s = &txn.txn_ref().work[self.db];
        match self.current(s) {
            Some((i, j)) => {
                let m = s.num_vals(i);
                if j < m - 1 {
                    self.pos = CursorPos::At(i, j + 1);
                    self.valid_key = true;
                    self.valid_value = true;
                    Ok(())
                } else {
                    Err(MdbError::NotFound)
                }
            },
            None => Err(MdbError::NotFound),
        }
    }

    /// Move to the previous key, to the last of its values; from
    /// nowhere or past the end, to the last key.
    pub fn move_to_prev_key<T: Txn>(&mut self, txn: &T) -> (r: MdbResult<()>)
        requires
            txn.txn_view().wf(),
        ensures
            final(self).same_cursor(*old(self)),
            ({
                let t = txn.txn_view();
                let s = old(self).store_of(t);
                let n = s.contents().len();
                match r {
                    Ok(()) => {
                        &&& old(self).gate_ok(t)
                        &&& final(self).valid_key && final(self).valid_value
                        &&& match old(self).cur(s) {
                            Some(p) => p.0 > 0 && final(self).cur(s) == Some(
                                (p.0 - 1, s.vals_at(p.0 - 1).len() - 1),
                            ),
                            None => n > 0 && final(self).cur(s) == Some(
                                (n - 1, s.vals_at(n - 1).len() - 1),
                            ),
                        }
                    },
                    Err(e) => {
                        if !old(self).gate_ok(t) {
                            old(self).gate_err(t, e) && *final(self) == *old(self)
                        } else {
                            &&& e == MdbError::NotFound
                            &&& *final(self) == (Cursor {
                                valid_key: false,
                                valid_value: false,
                                ..*old(self)
                            })
                            &&& match old(self).cur(s) {
                                Some(p) => p.0 == 0,
                                None => n == 0,
                            }
                        }
                    },
                }
            }),
    {
        self.gate(txn)?;
        self.valid_key = false;
        self.valid_value = false;
        let s = &txn.txn_ref().work[self.db];
        match self.current(s) {
            Some((i, _)) => {
                if i > 0 {
                    let m = s.num_vals(i - 1);
                    assert(s.vals_at(i as int - 1).len() >= 1);
                    self.pos = CursorPos::At(i - 1, m - 1);
                    self.valid_key = true;
                    self.valid_value = true;
                    Ok(())
                } else {
                    Err(MdbError::NotFound)
                }
            },
            None => {
                let n = s.num_entries();
                if n > 0 {
                    let m = s.num_vals(n - 1);
                    assert(s.vals_at(n as int - 1).len() >= 1);
                    self.pos = CursorPos::At(n - 1, m - 1);
                    self.valid_key = true;
                    self.valid_value = true;
                    Ok(())
                } else {
                    Err(MdbError::NotFound)
                }
            },
        }
    }

    /// Move to the previous value: within the current key first, else
    /// to the last value of the previous key; from nowhere, to the
    /// very last value.
    pub fn move_to_prev<T: Txn>(&mut self, txn: &T) -> (r: MdbResult<()>)
        requires
            txn.txn_view().wf(),
        ensures
            final(self).same_cursor(*old(self)),
            ({
                let t = txn.txn_view();
                let s = old(self).store_of(t);
                let n = s.contents().len();
                match r {
                    Ok(()) => {
                        &&& old(self).gate_ok(t)
                        &&& final(self).valid_key && final(self).valid_value
                        &&& match old(self).cur(s) {
                            Some(p) => {
                                if p.1 > 0 {
                                    final(self).cur(s) == Some((p.0, p.1 - 1))
                                } else {
                                    p.0 > 0 && final(self).cur(s) == Some(
                                        (p.0 - 1, s.vals_at(p.0 - 1).len() - 1),
                                    )
                                }
                            },
                            None => n > 0 && final(self).cur(s) == Some(
                                (n - 1, s.vals_at(n - 1).len() - 1),
                            ),
                        }
                    },
                    Err(e) => {
                        if !old(self).gate_ok(t) {
                            old(self).gate_err(t, e) && *final(self) == *old(self)
                        } else {
                            &&& e == MdbError::NotFound
                            &&& *final(self) == (Cursor {
                                valid_key: false,
                                valid_value: false,
                                ..*old(self)
                            })
                            &&& match old(self).cur(s) {
                                Some(p) => p.0 == 0 && p.1 == 0,
                                None => n == 0,
                            }
                        }
                    },
                }
            }),
    {
        self.gate(txn)?;
        self.valid_key = false;
        self.valid_value = false;
        let s = &txn.txn_ref().work[self.db];
        match self.current(s) {
            Some((i, j)) => {
                if j > 0 {
                    self.pos = CursorPos::At(i, j - 1);
                    self.valid_key = true;
                    self.valid_value = true;
                    Ok(())
                } else if i > 0 {
                    let m = s.num_vals(i - 1);
                    assert(s.vals_at(i as int - 1).len() >= 1);
                    self.pos = CursorPos::At(i - 1, m - 1);
                    self.valid_key = true;
                    self.valid_value = true;
                    Ok(())
                } else {
                    Err(MdbError::NotFound)
                }
            },
            None => {
                let n = s.num_entries();
                if n > 0 {
                    let m = s.num_vals(n - 1);
                    assert(s.vals_at(n as int - 1).len() >= 1);
                    self.pos = CursorPos::At(n - 1, m - 1);
                    self.valid_key = true;
                    self.valid_value = true;
                    Ok(())
                } else {
                    Err(MdbError::NotFound)
                }
            },
        }
    }

    /// Move to the next value: within the current key first, else to
    /// the first value of the next key; from nowhere, to the very
    /// first value.
    pub fn move_to_next<T: Txn>(&mut self, txn: &T) -> (r: MdbResult<()>)
        requires
            txn.txn_view().wf(),
        ensures
            final(self).same_cursor(*old(self)),
            ({
                let t = txn.txn_view();
                let s = old(self).store_of(t);
                let n = s.contents().len();
                match r {
                    Ok(()) => {
                        &&& old(self).gate_ok(t)
                        &&& final(self).valid_key && final(self).valid_value
                        &&& match old(self).cur(s) {
                            Some(p) => {
                                if p.1 + 1 < s.vals_at(p.0).len() {
                                    final(self).cur(s) == Some((p.0, p.1 + 1))
                                } else {
                                    p.0 + 1 < n && final(self).cur(s) == Some((p.0 + 1, 0int))
                                }
                            },
                            None => old(self).pos is Unset && n > 0 && final(self).cur(s) == Some(
                                (0int, 0int),
                            ),
                        }
                    },
                    Err(e) => {
                        if !old(self).gate_ok(t) {
                            old(self).gate_err(t, e) && *final(self) == *old(self)
                        } else {
                            &&& e == MdbError::NotFound
                            &&& *final(self) == (Cursor {
                                valid_key: false,
                                valid_value: false,
                                ..*old(self)
                            })
                            &&& match old(self).cur(s) {
                                Some(p) => p.0 + 1 >= n && p.1 + 1 >= s.vals_at(p.0).len(),
                                None => !(old(self).pos is Unset) || n == 0,
                            }
                        }
                    },
                }
            }),
    {
        self.gate(txn)?;
        self.valid_key = false;
        self.valid_value = false;
        let s = &txn.txn_ref().work[self.db];
        match self.current(s) {
            Some((i, j)) => {
                let m = s.num_vals(i);
                let n = s.num_entries();
                if j < m - 1 {
                    self.pos = CursorPos::At(i, j + 1);
                    self.valid_key = true;
                    self.valid_value = true;
                    Ok(())
                } else if i < n - 1 {
                    assert(s.vals_at(i + 1).len() >= 1);
                    self.pos = CursorPos::At(i + 1, 0);
                    self.valid_key = true;
                    self.valid_value = true;
                    Ok(())
                } else {
                    Err(MdbError::NotFound)
                }
            },
            None => {
                if let CursorPos::Unset = self.pos {
                    if s.num_entries() > 0 {
                        assert(s.vals_at(0).len() >= 1);
                        self.pos = CursorPos::At(0, 0);
                        self.valid_key = true;
                        self.valid_value = true;
                        return Ok(());
                    }
                }
                Err(MdbError::NotFound)
            },
        }
    }

    /// Move to the previous value under the current key.
    pub fn move_to_prev_item<T: Txn>(&mut self, txn: &T) -> (r: MdbResult<()>)
        requires
            txn.txn_view().wf(),
        ensures
            final(self).same_cursor(*old(self)),
            ({
                let t = txn.txn_view();
                let s = old(self).store_of(t);
                match r {
                    Ok(()) => {
                        &&& old(self).gate_ok(t)
                        &&& final(self).valid_key && final(self).valid_value
                        &&& old(self).cur(s) matches Some(p) && p.1 > 0 && final(self).cur(s)
                            == Some((p.0, p.1 - 1))
                    },
                    Err(e) => {
                        if !old(self).gate_ok(t) {
                            old(self).gate_err(t, e) && *final(self) == *old(self)
                        } else {
                            &&& e == MdbError::NotFound
                            &&& *final(self) == (Cursor {
                                valid_key: false,
                                valid_value: false,
                                ..*old(self)
                            })
                            &&& match old(self).cur(s) {
                                Some(p) => p.1 == 0,
                                None => true,
                            }
                        }
                    },
                }
            }),
    {
        self.gate(txn)?;
        self.valid_key = false;
        self.valid_value = false;
        let s = &txn.txn_ref().work[self.db];
        match self.current(s) {
            Some((i, j)) => {
                if j > 0 {
                    self.pos = CursorPos::At(i, j - 1);
                    self.valid_key = true;
                    self.valid_value = true;
                    Ok(())
                } else {
                    Err(MdbError::NotFound)
                }
            },
            None => Err(MdbError::NotFound),
        }
    }

    /// Move to the first value under the current key.
    pub fn move_to_first_item<T: Txn>(&mut self, txn: &T) -> (r: MdbResult<()>)
        requires
            txn.txn_view().wf(),
        ensures
            final(self).same_cursor(*old(self)),
            ({
                let t = txn.txn_view();
                let s = old(self).store_of(t);
                match r {
                    Ok(()) => {
                        &&& old(self).gate_ok(t)
                        &&& final(self).valid_key && final(self).valid_value
                        &&& old(self).cur(s) matches Some(p) && final(self).cur(s) == Some(
                            (p.0, 0int),
                        )
                    },
                    Err(e) => {
                        if !old(self).gate_ok(t) {
                            old(self).gate_err(t, e) && *final(self) == *old(self)
                        } else {
                            old(self).cur(s) is None && (e matches MdbError::Other(c, _) && c
                                == EINVAL) && *final(self) == (Cursor {
                                valid_key: false,
                                valid_value: false,
                                ..*old(self)
                            })
                        }
                    },
                }
            }),
    {
        self.gate(txn)?;
        self.valid_key = false;
        self.valid_value = false;
        let s = &txn.txn_ref().work[self.db];
        match self.current(s) {
            Some((i, _)) => {
                self.pos = CursorPos::At(i, 0);
                self.valid_key = true;
                self.valid_value = true;
                Ok(())
            },
            None => Err(MdbError::new_with_code(EINVAL)),
        }
    }

    /// Move to the last value under the current key.
    pub fn move_to_last_item<T: Txn>(&mut self, txn: &T) -> (r: MdbResult<()>)
        requires
            txn.txn_view().wf(),
        ensures
            final(self).same_cursor(*old(self)),
            ({
                let t = txn.txn_view();
                let s = old(self).store_of(t);
                match r {
                    Ok(()) => {
                        &&& old(self).gate_ok(t)
                        &&& final(self).valid_key && final(self).valid_value
                        &&& old(self).cur(s) matches Some(p) && final(self).cur(s) == Some(
                            (p.0, s.vals_at(p.0).len() - 1),
                        )
                    },
                    Err(e) => {
                        if !old(self).gate_ok(t) {
                            old(self).gate_err(t, e) && *final(self) == *old(self)
                        } else {
                            old(self).cur(s) is None && (e matches MdbError::Other(c, _) && c
                                == EINVAL) && *final(self) == (Cursor {
                                valid_key: false,
                                valid_value: false,
                                ..*old(self)
                            })
                        }
                    },
                }
            }),
    {
        self.gate(txn)?;
        self.valid_key = false;
        self.valid_value = false;
        let s = &txn.txn_ref().work[self.db];
        match self.current(s) {
            Some((i, _)) => {
                let m = s.num_vals(i);
                assert(s.vals_at(i as int).len() >= 1);
                self.pos = CursorPos::At(i, m - 1);
                self.valid_key = true;
                self.valid_value = true;
                Ok(())
            },
            None => Err(MdbError::new_with_code(EINVAL)),
        }
    }

    /// The step decision of the synthesized less-than-or-equal search:
    /// after the forward seek, step back exactly when the seek found
    /// nothing or the located key overshoots the target.  The on-disk
    /// embedding takes the same decision from here.
    pub fn lte_step_back(found: bool, target_lt_located: bool) -> (r: bool)
        ensures
            r == (!found || target_lt_located),
    {
        !found || target_lt_located
    }

    /// Move to the greatest key not exceeding `key`: synthesized as a
    /// seek to the first key at least `key`, stepped back one key when
    /// it overshoots.  On an exact match the cursor stands on the
    /// key's first value; on a stepped-back key, on its last value.
    /// When every key exceeds `key` (or there is none), `NotFound`.
    pub fn move_to_lte_key<T: Txn>(&mut self, key: &Vec<u8>, txn: &T) -> (r: MdbResult<()>)
        requires
            txn.txn_view().wf(),
        ensures
            final(self).same_cursor(*old(self)),
            ({
                let t = txn.txn_view();
                let s = old(self).store_of(t);
                let n = s.contents().len();
                let ub = upper_bound(s.keys(), s.key_order, key@);
                match r {
                    Ok(()) => old(self).gate_ok(t) && ub > 0 && final(self).valid_key && final(self).valid_value && final(self).cur(s) == Some(
                        (
                            ub - 1,
                            if s.keys()[ub - 1] == key@ {
                                0int
                            } else {
                                s.vals_at(ub - 1).len() - 1
                            },
                        ),
                    ),
                    Err(e) => {
                        if !old(self).gate_ok(t) {
                            old(self).gate_err(t, e) && *final(self) == *old(self)
                        } else {
                            &&& ub == 0
                            &&& e == MdbError::NotFound
                            &&& *final(self) == (Cursor {
                                pos: if n > 0 {
                                    CursorPos::At(0, 0)
                                } else {
                                    CursorPos::PastEnd
                                },
                                valid_key: false,
                                valid_value: false,
                                ..*old(self)
                            })
                        }
                    },
                }
            }),
    {
        proof {
            let t = txn.txn_view();
            if old(self).gate_ok(t) {
                let s = old(self).store_of(t);
                lemma_lower_bound(s.keys(), s.key_order, key@);
                lemma_bounds_relation(s.keys(), s.key_order, key@);
            }
        }
        match self.move_to_gte_key(key, txn) {
            Ok(()) => {
                let s = &txn.txn_ref().work[self.db];
                let l = match self.current(s) {
                    Some((l, _)) => l,
                    None => 0,
                };
                let located = s.key_at(l);
                let c = key_compare(s.key_order, &located, key);
                proof {
                    crate::order::lemma_ord_cmp_eq(s.key_order, s.keys()[l as int], key@);
                }
                if Cursor::lte_step_back(true, c > 0) {
                    proof {
                        if l > 0 {
                            crate::order::lemma_ord_cmp_eq(
                                s.key_order,
                                s.keys()[l as int - 1],
                                key@,
                            );
                        }
                    }
                    self.move_to_prev_key(txn)
                } else {
                    assert(s.vals_at(l as int).len() >= 1);
                    Ok(())
                }
            },
            Err(e) => {
                match e {
                    MdbError::NotFound => {
                        let ghost s = old(self).store_of(txn.txn_view());
                        proof {
                            if s.contents().len() > 0 {
                                crate::order::lemma_ord_cmp_eq(
                                    s.key_order,
                                    s.keys()[s.contents().len() - 1],
                                    key@,
                                );
                            }
                        }
                        if Cursor::lte_step_back(false, false) {
                            self.move_to_prev_key(txn)
                        } else {
                            Err(MdbError::NotFound)
                        }
                    },
                    _ => Err(e),
                }
            },
        }
    }

    /// Like `move_to_lte_key`, but always on the first value of the
    /// resolved key.
    pub fn move_to_lte_key_first_item<T: Txn>(&mut self, key: &Vec<u8>, txn: &T) -> (r: MdbResult<
        (),
    >)
        requires
            txn.txn_view().wf(),
        ensures
            final(self).same_cursor(*old(self)),
            ({
                let t = txn.txn_view();
                let s = old(self).store_of(t);
                let n = s.contents().len();
                let ub = upper_bound(s.keys(), s.key_order, key@);
                match r {
                    Ok(()) => old(self).gate_ok(t) && ub > 0 && final(self).valid_key && final(self).valid_value && final(self).cur(s) == Some((ub - 1, 0int)),
                    Err(e) => {
                        if !old(self).gate_ok(t) {
                            old(self).gate_err(t, e) && *final(self) == *old(self)
                        } else {
                            &&& ub == 0
                            &&& e == MdbError::NotFound
                            &&& *final(self) == (Cursor {
                                pos: if n > 0 {
                                    CursorPos::At(0, 0)
                                } else {
                                    CursorPos::PastEnd
                                },
                                valid_key: false,
                                valid_value: false,
                                ..*old(self)
                            })
                        }
                    },
                }
            }),
    {
        self.move_to_lte_key(key, txn)?;
        self.move_to_first_item(txn)
    }

    /// Move to exactly the pair (`key`, `value`); only meaningful when
    /// duplicates are allowed.
    pub fn move_to_item<T: Txn>(&mut self, key: &Vec<u8>, value: &Vec<u8>, txn: &T) -> (r:
        MdbResult<()>)
        requires
            txn.txn_view().wf(),
        ensures
            final(self).same_cursor(*old(self)),
            ({
                let t = txn.txn_view();
                let s = old(self).store_of(t);
                match r {
                    Ok(()) => old(self).gate_ok(t) && s.dup_allowed && s.has_item(key@, value@)
                        && final(self).valid_key && final(self).valid_value && final(self).cur(s)
                        == Some(
                        (s.lb(key@), lower_bound(s.vals_at(s.lb(key@)), s.dup_order, value@)),
                    ),
                    Err(e) => {
                        if !old(self).gate_ok(t) {
                            old(self).gate_err(t, e) && *final(self) == *old(self)
                        } else if !s.dup_allowed {
                            (e matches MdbError::Other(c, _) && c == EINVAL) && *final(self)
                                == (Cursor {
                                valid_key: false,
                                valid_value: false,
                                ..*old(self)
                            })
                        } else {
                            !s.has_item(key@, value@) && e == MdbError::NotFound && *final(self)
                                == (Cursor {
                                valid_key: false,
                                valid_value: false,
                                ..*old(self)
                            })
                        }
                    },
                }
            }),
    {
        self.gate(txn)?;
        self.valid_key = false;
        self.valid_value = false;
        let s = &txn.txn_ref().work[self.db];
        if !s.dup_allowed {
            return Err(MdbError::new_with_code(EINVAL));
        }
        proof {
            lemma_lower_bound(s.keys(), s.key_order, key@);
        }
        let l = s.find_lower_bound(key);
        if l == s.num_entries() {
            return Err(MdbError::NotFound);
        }
        let ck = s.key_at(l);
        let c = key_compare(s.key_order, &ck, key);
        proof {
            crate::order::lemma_ord_cmp_eq(s.key_order, s.keys()[l as int], key@);
        }
        if c != 0 {
            return Err(MdbError::NotFound);
        }
        let ghost vs = s.vals_at(l as int);
        proof {
            lemma_lower_bound(vs, s.dup_order, value@);
        }
        let vl = s.find_val_lower_bound(l, value);
        let m = s.num_vals(l);
        if vl == m {
            proof {
                lemma_absent_when_bound_misses(vs, s.dup_order, value@);
            }
            return Err(MdbError::NotFound);
        }
        let cv = s.val_at(l, vl);
        let vc = key_compare(s.dup_order, &cv, value);
        proof {
            crate::order::lemma_ord_cmp_eq(s.dup_order, vs[vl as int], value@);
        }
        if vc != 0 {
            proof {
                lemma_absent_when_bound_misses(vs, s.dup_order, value@);
            }
            return Err(MdbError::NotFound);
        }
        proof {
            assert(vs.contains(value@)) by {
                assert(vs[vl as int] == value@);
            }
        }
        self.pos = CursorPos::At(l, vl);
        self.valid_key = true;
        self.valid_value = true;
        Ok(())
    }

    /// Move, under exactly `key`, to the first value at least `value`.
    /// After this navigation neither the key nor the value bytes are
    /// engine-owned, so a read re-fetches both.
    pub fn move_to_gte_item<T: Txn>(&mut self, key: &Vec<u8>, value: &Vec<u8>, txn: &T) -> (r:
        MdbResult<()>)
        requires
            txn.txn_view().wf(),
        ensures
            final(self).same_cursor(*old(self)),
            ({
                let t = txn.txn_view();
                let s = old(self).store_of(t);
                let l = s.lb(key@);
                let vs = s.vals_at(l);
                let vlb = lower_bound(vs, s.dup_order, value@);
                match r {
                    Ok(()) => old(self).gate_ok(t) && s.dup_allowed && s.has_key(key@) && vlb
                        < vs.len() && !final(self).valid_key && !final(self).valid_value && final(self).cur(s) == Some((l, vlb)),
                    Err(e) => {
                        if !old(self).gate_ok(t) {
                            old(self).gate_err(t, e) && *final(self) == *old(self)
                        } else if !s.dup_allowed {
                            (e matches MdbError::Other(c, _) && c == EINVAL) && *final(self)
                                == (Cursor {
                                valid_key: false,
                                valid_value: false,
                                ..*old(self)
                            })
                        } else if !s.has_key(key@) {
                            e == MdbError::NotFound && *final(self) == (Cursor {
                                valid_key: false,
                                valid_value: false,
                                ..*old(self)
                            })
                        } else {
                            &&& vlb == vs.len()
                            &&& e == MdbError::NotFound
                            &&& !final(self).valid_key && !final(self).valid_value
                            &&& final(self).cur(s) == Some((l, vs.len() - 1))
                        }
                    },
                }
            }),
    {
        self.gate(txn)?;
        self.valid_key = false;
        self.valid_value = false;
        let s = &txn.txn_ref().work[self.db];
        if !s.dup_allowed {
            return Err(MdbError::new_with_code(EINVAL));
        }
        proof {
            lemma_lower_bound(s.keys(), s.key_order, key@);
        }
        let l = s.find_lower_bound(key);
        let mut key_found = false;
        if l < s.num_entries() {
            let ck = s.key_at(l);
            let c = key_compare(s.key_order, &ck, key);
            proof {
                crate::order::lemma_ord_cmp_eq(s.key_order, s.keys()[l as int], key@);
            }
            key_found = c == 0;
        }
        if !key_found {
            return Err(MdbError::NotFound);
        }
        let ghost vs = s.vals_at(l as int);
        proof {
            lemma_lower_bound(vs, s.dup_order, value@);
        }
        let vl = s.find_val_lower_bound(l, value);
        let m = s.num_vals(l);
        if vl < m {
            self.pos = CursorPos::At(l, vl);
            Ok(())
        } else {
            assert(vs.len() >= 1);
            self.pos = CursorPos::At(l, m - 1);
            Err(MdbError::NotFound)
        }
    }

    /// Move, under exactly `key`, to the last value not exceeding
    /// `value`: synthesized from the forward search, stepped back one
    /// value when it overshoots.  `NotFound` when the key is absent or
    /// every value under it exceeds `value`.
    pub fn move_to_lte_item<T: Txn>(&mut self, key: &Vec<u8>, value: &Vec<u8>, txn: &T) -> (r:
        MdbResult<()>)
        requires
            txn.txn_view().wf(),
        ensures
            final(self).same_cursor(*old(self)),
            ({
                let t = txn.txn_view();
                let s = old(self).store_of(t);
                let l = s.lb(key@);
                let vs = s.vals_at(l);
                let vub = upper_bound(vs, s.dup_order, value@);
                match r {
                    Ok(()) => old(self).gate_ok(t) && s.dup_allowed && s.has_key(key@) && vub > 0
                        && final(self).valid_key && final(self).valid_value && final(self).cur(s)
                        == Some((l, vub - 1)),
                    Err(e) => {
                        if !old(self).gate_ok(t) {
                            old(self).gate_err(t, e) && *final(self) == *old(self)
                        } else if !s.dup_allowed {
                            (e matches MdbError::Other(c, _) && c == EINVAL) && *final(self)
                                == (Cursor {
                                valid_key: false,
                                valid_value: false,
                                ..*old(self)
                            })
                        } else if !s.has_key(key@) {
                            e == MdbError::NotFound && *final(self) == (Cursor {
                                valid_key: false,
                                valid_value: false,
                                ..*old(self)
                            })
                        } else {
                            &&& vub == 0
                            &&& e == MdbError::NotFound
                            &&& !final(self).valid_key && !final(self).valid_value
                            &&& final(self).cur(s) == Some((l, 0int))
                        }
                    },
                }
            }),
    {
        proof {
            let t = txn.txn_view();
            if old(self).gate_ok(t) {
                let s = old(self).store_of(t);
                assert(s.wf());
                let l = s.lb(key@);
                lemma_lower_bound(s.keys(), s.key_order, key@);
                if s.has_key(key@) {
                    let vs = s.vals_at(l);
                    assert(sorted_under(vs, s.dup_order));
                    lemma_lower_bound(vs, s.dup_order, value@);
                    lemma_bounds_relation(vs, s.dup_order, value@);
                }
            }
        }
        match self.move_to_gte_item(key, value, txn) {
            Ok(()) => {
                let v = self.get_value(txn)?;
                let s = &txn.txn_ref().work[self.db];
                let c = key_compare(s.dup_order, value, &v);
                proof {
                    let vs = s.vals_at(s.lb(key@));
                    let vlb = lower_bound(vs, s.dup_order, value@);
                    crate::order::lemma_ord_cmp_eq(s.dup_order, vs[vlb], value@);
                    crate::order::lemma_ord_cmp_antisym(s.dup_order, vs[vlb], value@);
                }
                if c < 0 {
                    self.move_to_prev_item(txn)
                } else {
                    Ok(())
                }
            },
            Err(e) => {
                match e {
                    MdbError::NotFound => {
                        let s = &txn.txn_ref().work[self.db];
                        match self.current(s) {
                            Some((i, _)) => {
                                let ck = s.key_at(i);
                                let c = key_compare(s.key_order, &ck, key);
                                proof {
                                    crate::order::lemma_ord_cmp_eq(
                                        s.key_order,
                                        s.keys()[i as int],
                                        key@,
                                    );
                                    if c == 0 && i as int != s.lb(key@) {
                                        assert(s.lb(key@) < i);
                                        assert(ord_cmp(
                                            s.key_order,
                                            s.keys()[s.lb(key@)],
                                            s.keys()[i as int],
                                        ) < 0);
                                        crate::store::lemma_cmp_lt_le(
                                            s.key_order,
                                            s.keys()[s.lb(key@)],
                                            s.keys()[i as int],
                                            key@,
                                        );
                                        assert(false);
                                    }
                                }
                                if c == 0 {
                                    let _ = self.get(txn)?;
                                    Ok(())
                                } else {
                                    Err(MdbError::NotFound)
                                }
                            },
                            None => Err(MdbError::NotFound),
                        }
                    },
                    _ => Err(e),
                }
            },
        }
    }

    /// A copy of the key and value at the current position.
    pub fn get<T: Txn>(&mut self, txn: &T) -> (r: MdbResult<(Vec<u8>, Vec<u8>)>)
        requires
            txn.txn_view().wf(),
        ensures
            final(self).same_cursor(*old(self)),
            final(self).pos == old(self).pos,
            ({
                let t = txn.txn_view();
                let s = old(self).store_of(t);
                match r {
                    Ok(kv) => {
                        &&& old(self).gate_ok(t)
                        &&& old(self).cur(s) matches Some(p) && kv.0@ == s.contents()[p.0].0
                            && kv.1@ == s.vals_at(p.0)[p.1]
                        &&& final(self).valid_key && final(self).valid_value
                    },
                    Err(e) => {
                        if !old(self).gate_ok(t) {
                            old(self).gate_err(t, e) && *final(self) == *old(self)
                        } else {
                            old(self).cur(s) is None && (e matches MdbError::Other(c, _) && c
                                == EINVAL) && *final(self) == *old(self)
                        }
                    },
                }
            }),
    {
        self.gate(txn)?;
        let s = &txn.txn_ref().work[self.db];
        match self.current(s) {
            Some((i, j)) => {
                let k = s.key_at(i);
                let v = s.val_at(i, j);
                self.valid_key = true;
                self.valid_value = true;
                Ok((k, v))
            },
            None => Err(MdbError::new_with_code(EINVAL)),
        }
    }

    /// A copy of the key at the current position.
    pub fn get_key<T: Txn>(&mut self, txn: &T) -> (r: MdbResult<Vec<u8>>)
        requires
            txn.txn_view().wf(),
        ensures
            final(self).same_cursor(*old(self)),
            final(self).pos == old(self).pos,
            ({
                let t = txn.txn_view();
                let s = old(self).store_of(t);
                match r {
                    Ok(k) => {
                        &&& old(self).gate_ok(t)
                        &&& old(self).cur(s) matches Some(p) && k@ == s.contents()[p.0].0
                        &&& final(self).valid_key && final(self).valid_value
                    },
                    Err(e) => {
                        if !old(self).gate_ok(t) {
                            old(self).gate_err(t, e) && *final(self) == *old(self)
                        } else {
                            old(self).cur(s) is None && (e matches MdbError::Other(c, _) && c
                                == EINVAL) && *final(self) == *old(self)
                        }
                    },
                }
            }),
    {
        let r = self.get(txn)?;
        Ok(r.0)
    }

    /// A copy of the value at the current position.
    pub fn get_value<T: Txn>(&mut self, txn: &T) -> (r: MdbResult<Vec<u8>>)
        requires
            txn.txn_view().wf(),
        ensures
            final(self).same_cursor(*old(self)),
            final(self).pos == old(self).pos,
            ({
                let t = txn.txn_view();
                let s = old(self).store_of(t);
                match r {
                    Ok(v) => {
                        &&& old(self).gate_ok(t)
                        &&& old(self).cur(s) matches Some(p) && v@ == s.vals_at(p.0)[p.1]
                        &&& final(self).valid_key && final(self).valid_value
                    },
                    Err(e) => {
                        if !old(self).gate_ok(t) {
                            old(self).gate_err(t, e) && *final(self) == *old(self)
                        } else {
                            old(self).cur(s) is None && (e matches MdbError::Other(c, _) && c
                                == EINVAL) && *final(self) == *old(self)
                        }
                    },
                }
            }),
    {
        let r = self.get(txn)?;
        Ok(r.1)
    }

    /// Move to the last pair at most (`key`, `value`): the key search
    /// composed with the duplicate-value search.  Resolves the key
    /// first, to its first value; then, within the resolved key, the
    /// last value not exceeding `value`.
    pub fn move_to_lte_key_and_item<T: Txn>(
        &mut self,
        key: &Vec<u8>,
        value: &Vec<u8>,
        txn: &T,
    ) -> (r: MdbResult<()>)
        requires
            txn.txn_view().wf(),
        ensures
            final(self).same_cursor(*old(self)),
            ({
                let t = txn.txn_view();
                let s = old(self).store_of(t);
                let n = s.contents().len();
                let ub = upper_bound(s.keys(), s.key_order, key@);
                let vs = s.vals_at(ub - 1);
                let vub = upper_bound(vs, s.dup_order, value@);
                match r {
                    Ok(()) => {
                        &&& old(self).gate_ok(t)
                        &&& s.dup_allowed
                        &&& ub > 0
                        &&& vub > 0
                        &&& !final(self).valid_key && !final(self).valid_value
                        &&& final(self).cur(s) == Some((ub - 1, vub - 1))
                    },
                    Err(e) => {
                        if !old(self).gate_ok(t) {
                            old(self).gate_err(t, e) && *final(self) == *old(self)
                        } else if ub == 0 {
                            &&& e == MdbError::NotFound
                            &&& *final(self) == (Cursor {
                                pos: if n > 0 {
                                    CursorPos::At(0, 0)
                                } else {
                                    CursorPos::PastEnd
                                },
                                valid_key: false,
                                valid_value: false,
                                ..*old(self)
                            })
                        } else if !s.dup_allowed {
                            &&& e matches MdbError::Other(c, _) && c == EINVAL
                            &&& !final(self).valid_key && !final(self).valid_value
                            &&& final(self).cur(s) == Some((ub - 1, 0int))
                        } else {
                            &&& vub == 0
                            &&& e == MdbError::NotFound
                            &&& !final(self).valid_key && !final(self).valid_value
                            &&& final(self).cur(s) == Some((ub - 1, 0int))
                        }
                    },
                }
            }),
    {
        self.move_to_lte_key_first_item(key, txn)?;
        let k2 = self.get_key(txn)?;
        proof {
            let t = txn.txn_view();
            let s = old(self).store_of(t);
            let ub = upper_bound(s.keys(), s.key_order, key@);
            lemma_lower_bound(s.keys(), s.key_order, k2@);
            assert forall|w: int| 0 <= w < ub - 1 implies #[trigger] ord_cmp(
                s.key_order,
                s.keys()[w],
                k2@,
            ) < 0 by {
                assert(ord_cmp(s.key_order, s.keys()[w], s.keys()[ub - 1]) < 0);
            }
            assert(ord_cmp(s.key_order, s.keys()[ub - 1], k2@) >= 0) by {
                crate::order::lemma_ord_cmp_eq(s.key_order, s.keys()[ub - 1], k2@);
                crate::order::lemma_ord_cmp_range(s.key_order, s.keys()[ub - 1], k2@);
            }
            if s.lb(k2@) < ub - 1 {
                assert(ord_cmp(s.key_order, s.keys()[s.lb(k2@)], k2@) < 0);
            }
            assert(s.lb(k2@) == ub - 1);
            assert(s.has_key(k2@));
        }
        self.move_to_lte_item(&k2, value, txn)?;
        self.valid_key = false;
        self.valid_value = false;
        Ok(())
    }

    /// Move to the first pair at least (`key`, `value`): the key
    /// search composed with the duplicate-value search, each in the
    /// forward direction.
    pub fn move_to_gte_key_and_item<T: Txn>(
        &mut self,
        key: &Vec<u8>,
        value: &Vec<u8>,
        txn: &T,
    ) -> (r: MdbResult<()>)
        requires
            txn.txn_view().wf(),
        ensures
            final(self).same_cursor(*old(self)),
            ({
                let t = txn.txn_view();
                let s = old(self).store_of(t);
                let l = s.lb(key@);
                let vs = s.vals_at(l);
                let vlb = lower_bound(vs, s.dup_order, value@);
                match r {
                    Ok(()) => {
                        &&& old(self).gate_ok(t)
                        &&& s.dup_allowed
                        &&& l < s.contents().len()
                        &&& vlb < vs.len()
                        &&& !final(self).valid_key && !final(self).valid_value
                        &&& final(self).cur(s) == Some((l, vlb))
                    },
                    Err(e) => {
                        if !old(self).gate_ok(t) {
                            old(self).gate_err(t, e) && *final(self) == *old(self)
                        } else if l == s.contents().len() {
                            &&& e == MdbError::NotFound
                            &&& *final(self) == (Cursor {
                                pos: CursorPos::PastEnd,
                                valid_key: false,
                                valid_value: false,
                                ..*old(self)
                            })
                        } else if !s.dup_allowed {
                            &&& e matches MdbError::Other(c, _) && c == EINVAL
                            &&& !final(self).valid_key && !final(self).valid_value
                            &&& final(self).cur(s) == Some((l, 0int))
                        } else {
                            &&& vlb == vs.len()
                            &&& e == MdbError::NotFound
                            &&& !final(self).valid_key && !final(self).valid_value
                            &&& final(self).cur(s) == Some((l, vs.len() - 1))
                        }
                    },
                }
            }),
    {
        self.move_to_gte_key(key, txn)?;
        let k2 = self.get_key(txn)?;
        proof {
            let t = txn.txn_view();
            let s = old(self).store_of(t);
            let l = s.lb(key@);
            lemma_lower_bound(s.keys(), s.key_order, k2@);
            assert forall|w: int| 0 <= w < l implies #[trigger] ord_cmp(
                s.key_order,
                s.keys()[w],
                k2@,
            ) < 0 by {
                assert(ord_cmp(s.key_order, s.keys()[w], s.keys()[l]) < 0);
            }
            assert(ord_cmp(s.key_order, s.keys()[l], k2@) >= 0) by {
                crate::order::lemma_ord_cmp_eq(s.key_order, s.keys()[l], k2@);
                crate::order::lemma_ord_cmp_range(s.key_order, s.keys()[l], k2@);
            }
            if s.lb(k2@) < l {
                assert(ord_cmp(s.key_order, s.keys()[s.lb(k2@)], k2@) < 0);
            }
            assert(s.lb(k2@) == l);
            assert(s.has_key(k2@));
        }
        self.move_to_gte_item(&k2, value, txn)?;
        self.valid_key = false;
        self.valid_value = false;
        Ok(())
    }

    /// Move to the previous key, to the first of its values.
    pub fn move_to_prev_key_dup<T: Txn>(&mut self, txn: &T) -> (r: MdbResult<()>)
        requires
            txn.txn_view().wf(),
        ensures
            final(self).same_cursor(*old(self)),
            ({
                let t = txn.txn_view();
                let s = old(self).store_of(t);
                let n = s.contents().len();
                match r {
                    Ok(()) => {
                        &&& old(self).gate_ok(t)
                        &&& final(self).valid_key && final(self).valid_value
                        &&& match old(self).cur(s) {
                            Some(p) => p.0 > 0 && final(self).cur(s) == Some((p.0 - 1, 0int)),
                            None => n > 0 && final(self).cur(s) == Some((n - 1, 0int)),
                        }
                    },
                    Err(e) => {
                        if !old(self).gate_ok(t) {
                            old(self).gate_err(t, e) && *final(self) == *old(self)
                        } else {
                            &&& e == MdbError::NotFound
                            &&& *final(self) == (Cursor {
                                valid_key: false,
                                valid_value: false,
                                ..*old(self)
                            })
                            &&& match old(self).cur(s) {
                                Some(p) => p.0 == 0,
                                None => n == 0,
                            }
                        }
                    },
                }
            }),
    {
        self.move_to_prev_key(txn)?;
        self.move_to_first_item(txn)
    }

    /// What a write through the cursor checks first: additionally,
    /// the transaction must not be read-only.
    pub open spec fn write_gate_err(self, t: NativeTransaction, e: MdbError) -> bool {
        if !(t.state is Normal) {
            e is StateError
        } else if self.db >= t.work@.len() {
            e matches MdbError::Other(c, _) && c == MDB_BAD_DBI
        } else {
            t.readonly && (e matches MdbError::Other(c, _) && c == EACCES)
        }
    }

    /// Whether the write gate is open.
    pub open spec fn write_gate_ok(self, t: NativeTransaction) -> bool {
        self.gate_ok(t) && !t.readonly
    }

    /// Overwrite the value of the current item.  Under duplicates the
    /// new value must keep the item's sort position, else the engine
    /// refuses the overwrite.
    pub fn replace<T: Txn>(&mut self, value: &Vec<u8>, txn: &mut T) -> (r: MdbResult<()>)
        requires
            old(txn).txn_view().wf(),
        ensures
            final(txn).txn_view().wf(),
            final(self).same_cursor(*old(self)),
            final(self).pos == old(self).pos,
            final(self).valid_value == old(self).valid_value,
            ({
                let t = old(txn).txn_view();
                let u = final(txn).txn_view();
                let s = old(self).store_of(t);
                match r {
                    Ok(()) => {
                        &&& old(self).write_gate_ok(t)
                        &&& !final(self).valid_key
                        &&& old(self).cur(s) matches Some(p) && ({
                            let vs = s.vals_at(p.0);
                            &&& (!s.dup_allowed || ((p.1 == 0 || ord_cmp(
                                s.dup_order,
                                vs[p.1 - 1],
                                value@,
                            ) < 0) && (p.1 + 1 == vs.len() || ord_cmp(
                                s.dup_order,
                                value@,
                                vs[p.1 + 1],
                            ) < 0)))
                            &&& cursor_write_frame(*old(self), t, u)
                            &&& old(self).store_of(u).contents() == s.contents().update(
                                p.0,
                                (s.keys()[p.0], vs.update(p.1, value@)),
                            )
                        })
                    },
                    Err(e) => {
                        &&& u.state == t.state
                        &&& u.readonly == t.readonly
                        &&& u.work@ == t.work@
                        &&& if !old(self).write_gate_ok(t) {
                            old(self).write_gate_err(t, e) && *final(self) == *old(self)
                        } else {
                            &&& !final(self).valid_key
                            &&& (e matches MdbError::Other(c, _) && c == EINVAL)
                            &&& match old(self).cur(s) {
                                Some(p) => {
                                    let vs = s.vals_at(p.0);
                                    s.dup_allowed && !((p.1 == 0 || ord_cmp(
                                        s.dup_order,
                                        vs[p.1 - 1],
                                        value@,
                                    ) < 0) && (p.1 + 1 == vs.len() || ord_cmp(
                                        s.dup_order,
                                        value@,
                                        vs[p.1 + 1],
                                    ) < 0))
                                },
                                None => true,
                            }
                        }
                    },
                }
            }),
    {
        check_normal("cursor", txn.get_state())?;
        let inner = txn.txn_mut();
        if self.db >= inner.work.len() {
            return Err(MdbError::new_with_code(MDB_BAD_DBI));
        }
        if inner.readonly {
            return Err(MdbError::new_with_code(EACCES));
        }
        let p = self.current(&inner.work[self.db]);
        self.valid_key = false;
        match p {
            Some((i, j)) => {
                let ghost pre = inner.work@;
                let mut st = inner.work.remove(self.db);
                let res = st.replace_val_at(i, j, value);
                inner.work.insert(self.db, st);
                proof {
                    assert(inner.work@ =~= pre.update(self.db as int, inner.work@[self.db as int]));
                    if res is Err {
                        assert(inner.work@ =~= pre);
                    }
                }
                res
            },
            None => Err(MdbError::new_with_code(EINVAL)),
        }
    }

    /// Add a new value under the current item's key (a database with
    /// duplicates); without duplicates the single value is replaced.
    /// The cursor moves to the added value.
    pub fn add_item<T: Txn>(&mut self, value: &Vec<u8>, txn: &mut T) -> (r: MdbResult<()>)
        requires
            old(txn).txn_view().wf(),
        ensures
            final(txn).txn_view().wf(),
            final(self).same_cursor(*old(self)),
            final(self).valid_value == old(self).valid_value,
            ({
                let t = old(txn).txn_view();
                let u = final(txn).txn_view();
                let s = old(self).store_of(t);
                match r {
                    Ok(()) => {
                        &&& old(self).write_gate_ok(t)
                        &&& !final(self).valid_key
                        &&& old(self).cur(s) matches Some(p) && ({
                            let key = s.keys()[p.0];
                            let s2 = old(self).store_of(u);
                            &&& cursor_write_frame(*old(self), t, u)
                            &&& if !s.dup_allowed {
                                s2.contents() == s.contents().update(p.0, (key, seq![value@]))
                            } else {
                                s2.contents() == s.contents().update(
                                    p.0,
                                    (
                                        key,
                                        crate::store::dup_put(s.vals_at(p.0), s.dup_order, value@),
                                    ),
                                )
                            }
                            &&& final(self).cur(s2) == Some(
                                (p.0, lower_bound(s2.vals_at(p.0), s2.dup_order, value@)),
                            )
                        })
                    },
                    Err(e) => {
                        &&& u == t
                        &&& if !old(self).write_gate_ok(t) {
                            old(self).write_gate_err(t, e) && *final(self) == *old(self)
                        } else {
                            &&& old(self).cur(s) is None
                            &&& (e matches MdbError::Other(c, _) && c == EINVAL)
                            &&& !final(self).valid_key
                            &&& final(self).pos == old(self).pos
                        }
                    },
                }
            }),
    {
        check_normal("cursor", txn.get_state())?;
        let inner = txn.txn_mut();
        if self.db >= inner.work.len() {
            return Err(MdbError::new_with_code(MDB_BAD_DBI));
        }
        if inner.readonly {
            return Err(MdbError::new_with_code(EACCES));
        }
        let p = self.current(&inner.work[self.db]);
        self.valid_key = false;
        match p {
            Some((i, _)) => {
                let key = inner.work[self.db].key_at(i);
                let ghost pre = inner.work@;
                let ghost spre = inner.work@[self.db as int];
                let mut st = inner.work.remove(self.db);
                let res = st.put(&key, value);
                proof {
                    lemma_lower_bound(spre.keys(), spre.key_order, key@);
                    assert forall|w: int| 0 <= w < i implies #[trigger] ord_cmp(
                        spre.key_order,
                        spre.keys()[w],
                        key@,
                    ) < 0 by {
                        assert(ord_cmp(spre.key_order, spre.keys()[w], spre.keys()[i as int]) < 0);
                    }
                    assert(ord_cmp(spre.key_order, spre.keys()[i as int], key@) >= 0) by {
                        crate::order::lemma_ord_cmp_eq(
                            spre.key_order,
                            spre.keys()[i as int],
                            key@,
                        );
                        crate::order::lemma_ord_cmp_range(
                            spre.key_order,
                            spre.keys()[i as int],
                            key@,
                        );
                    }
                    if spre.lb(key@) < i {
                        assert(ord_cmp(spre.key_order, spre.keys()[spre.lb(key@)], key@) < 0);
                    }
                    assert(spre.lb(key@) == i);
                    assert(spre.has_key(key@));
                }
                let vl = st.find_val_lower_bound(i, value);
                let m = st.num_vals(i);
                proof {
                    let vs2 = st.vals_at(i as int);
                    assert(st.wf());
                    assert(i < st.contents().len());
                    assert(sorted_under(st.vals_at(i as int), st.dup_order));
                    lemma_lower_bound(vs2, st.dup_order, value@);
                    assert(st.contents() == spre.contents().update(
                        spre.lb(key@),
                        (
                            key@,
                            if !spre.dup_allowed {
                                seq![value@]
                            } else {
                                crate::store::dup_put(
                                    spre.vals_at(spre.lb(key@)),
                                    spre.dup_order,
                                    value@,
                                )
                            },
                        ),
                    ));
                    assert(st.contents()[i as int].1 == vs2);
                    if !spre.dup_allowed {
                        assert(vs2 =~= seq![value@]);
                        crate::order::lemma_ord_cmp_eq(st.dup_order, vs2[0], value@);
                    } else {
                        let vs = spre.vals_at(i as int);
                        assert(vs2 == crate::store::dup_put(vs, spre.dup_order, value@));
                        let l0 = lower_bound(vs, spre.dup_order, value@);
                        lemma_lower_bound(vs, spre.dup_order, value@);
                        if l0 < vs.len() && vs[l0] == value@ {
                            assert(vs2 == vs);
                        } else {
                            assert(vs2 == vs.insert(l0, value@));
                            assert(vs2[l0] == value@);
                        }
                        assert(vs2.contains(value@)) by {
                            assert(vs2[l0] == value@);
                        }
                        crate::store::lemma_present_bound_hits(vs2, st.dup_order, value@);
                    }
                    assert(lower_bound(vs2, st.dup_order, value@) < vs2.len());
                }
                self.pos = CursorPos::At(i, vl);
                inner.work.insert(self.db, st);
                proof {
                    assert(inner.work@ =~= pre.update(self.db as int, inner.work@[self.db as int]));
                }
                res
            },
            None => Err(MdbError::new_with_code(EINVAL)),
        }
    }

    /// Delete only the current item; the cursor moves to the next
    /// value of the same key, or past it when none is left.
    pub fn del_item<T: Txn>(&mut self, txn: &mut T) -> (r: MdbResult<()>)
        requires
            old(txn).txn_view().wf(),
        ensures
            final(txn).txn_view().wf(),
            final(self).same_cursor(*old(self)),
            final(self).valid_value == old(self).valid_value,
            ({
                let t = old(txn).txn_view();
                let u = final(txn).txn_view();
                let s = old(self).store_of(t);
                let n = s.contents().len();
                match r {
                    Ok(()) => {
                        &&& old(self).write_gate_ok(t)
                        &&& !final(self).valid_key
                        &&& old(self).cur(s) matches Some(p) && ({
                            let vs = s.vals_at(p.0);
                            let s2 = old(self).store_of(u);
                            &&& cursor_write_frame(*old(self), t, u)
                            &&& if vs.len() > 1 {
                                &&& s2.contents() == s.contents().update(
                                    p.0,
                                    (s.keys()[p.0], vs.remove(p.1)),
                                )
                                &&& final(self).cur(s2) == Some(
                                    (
                                        p.0,
                                        if p.1 < vs.len() - 1 {
                                            p.1
                                        } else {
                                            vs.len() - 2
                                        },
                                    ),
                                )
                            } else {
                                &&& s2.contents() == s.contents().remove(p.0)
                                &&& if p.0 < n - 1 {
                                    final(self).cur(s2) == Some((p.0, 0int))
                                } else if n > 1 {
                                    final(self).pos is PastEnd
                                } else {
                                    final(self).pos is Unset
                                }
                            }
                        })
                    },
                    Err(e) => {
                        &&& u == t
                        &&& if !old(self).write_gate_ok(t) {
                            old(self).write_gate_err(t, e) && *final(self) == *old(self)
                        } else {
                            &&& old(self).cur(s) is None
                            &&& (e matches MdbError::Other(c, _) && c == EINVAL)
                            &&& !final(self).valid_key
                            &&& final(self).pos == old(self).pos
                        }
                    },
                }
            }),
    {
        check_normal("cursor", txn.get_state())?;
        let inner = txn.txn_mut();
        if self.db >= inner.work.len() {
            return Err(MdbError::new_with_code(MDB_BAD_DBI));
        }
        if inner.readonly {
            return Err(MdbError::new_with_code(EACCES));
        }
        let p = self.current(&inner.work[self.db]);
        self.valid_key = false;
        match p {
            Some((i, j)) => {
                let m = inner.work[self.db].num_vals(i);
                let n = inner.work[self.db].num_entries();
                let ghost pre = inner.work@;
                let ghost vs = pre[self.db as int].vals_at(i as int);
                let mut st = inner.work.remove(self.db);
                st.del_at(i, j);
                inner.work.insert(self.db, st);
                proof {
                    assert(inner.work@ =~= pre.update(self.db as int, inner.work@[self.db as int]));
                }
                if m > 1 {
                    proof {
                        let s2 = inner.work@[self.db as int];
                        assert(s2.contents()[i as int].1 == vs.remove(j as int));
                        vs.remove_ensures(j as int);
                        assert(i < s2.contents().len());
                        assert(s2.contents().len() == s2.entries@.len());
                        assert(s2.contents()[i as int].1 == s2.vals_at(i as int));
                        assert(s2.vals_at(i as int).len() == m - 1);
                    }
                    if j < m - 1 {
                        self.pos = CursorPos::At(i, j);
                    } else {
                        self.pos = CursorPos::At(i, m - 2);
                    }
                } else {
                    if i < n - 1 {
                        proof {
                            let s2 = inner.work@[self.db as int];
                            assert(s2.contents().len() == n - 1);
                            assert(s2.wf());
                            assert(s2.vals_at(i as int).len() >= 1);
                        }
                        self.pos = CursorPos::At(i, 0);
                    } else if n > 1 {
                        self.pos = CursorPos::PastEnd;
                    } else {
                        self.pos = CursorPos::Unset;
                    }
                }
                Ok(())
            },
            None => Err(MdbError::new_with_code(EINVAL)),
        }
    }

    /// Delete the current key with every value stored under it.
    pub fn del_all<T: Txn>(&mut self, txn: &mut T) -> (r: MdbResult<()>)
        requires
            old(txn).txn_view().wf(),
        ensures
            final(txn).txn_view().wf(),
            final(self).same_cursor(*old(self)),
            final(self).valid_key == old(self).valid_key,
            final(self).valid_value == old(self).valid_value,
            ({
                let t = old(txn).txn_view();
                let u = final(txn).txn_view();
                let s = old(self).store_of(t);
                let n = s.contents().len();
                match r {
                    Ok(()) => {
                        &&& old(self).write_gate_ok(t)
                        &&& old(self).cur(s) matches Some(p) && ({
                            let s2 = old(self).store_of(u);
                            &&& cursor_write_frame(*old(self), t, u)
                            &&& s2.contents() == s.contents().remove(p.0)
                            &&& if p.0 < n - 1 {
                                final(self).cur(s2) == Some((p.0, 0int))
                            } else if n > 1 {
                                final(self).pos is PastEnd
                            } else {
                                final(self).pos is Unset
                            }
                        })
                    },
                    Err(e) => {
                        &&& u == t
                        &&& *final(self) == *old(self)
                        &&& if !old(self).write_gate_ok(t) {
                            old(self).write_gate_err(t, e)
                        } else {
                            old(self).cur(s) is None && (e matches MdbError::Other(c, _) && c
                                == EINVAL)
                        }
                    },
                }
            }),
    {
        check_normal("cursor", txn.get_state())?;
        let inner = txn.txn_mut();
        if self.db >= inner.work.len() {
            return Err(MdbError::new_with_code(MDB_BAD_DBI));
        }
        if inner.readonly {
            return Err(MdbError::new_with_code(EACCES));
        }
        let p = self.current(&inner.work[self.db]);
        match p {
            Some((i, _)) => {
                let n = inner.work[self.db].num_entries();
                let ghost pre = inner.work@;
                let mut st = inner.work.remove(self.db);
                st.del_record_at(i);
                inner.work.insert(self.db, st);
                proof {
                    assert(inner.work@ =~= pre.update(self.db as int, inner.work@[self.db as int]));
                }
                if i < n - 1 {
                    self.pos = CursorPos::At(i, 0);
                } else if n > 1 {
                    self.pos = CursorPos::PastEnd;
                } else {
                    self.pos = CursorPos::Unset;
                }
                Ok(())
            },
            None => Err(MdbError::new_with_code(EINVAL)),
        }
    }

    /// Delete the current key: the same as `del_all`.
    pub fn del<T: Txn>(&mut self, txn: &mut T) -> (r: MdbResult<()>)
        requires
            old(txn).txn_view().wf(),
        ensures
            final(txn).txn_view().wf(),
            final(self).same_cursor(*old(self)),
            final(self).valid_key == old(self).valid_key,
            final(self).valid_value == old(self).valid_value,
            ({
                let t = old(txn).txn_view();
                let u = final(txn).txn_view();
                let s = old(self).store_of(t);
                let n = s.contents().len();
                match r {
                    Ok(()) => {
                        &&& old(self).write_gate_ok(t)
                        &&& old(self).cur(s) matches Some(p) && ({
                            let s2 = old(self).store_of(u);
                            &&& cursor_write_frame(*old(self), t, u)
                            &&& s2.contents() == s.contents().remove(p.0)
                            &&& if p.0 < n - 1 {
                                final(self).cur(s2) == Some((p.0, 0int))
                            } else if n > 1 {
                                final(self).pos is PastEnd
                            } else {
                                final(self).pos is Unset
                            }
                        })
                    },
                    Err(e) => {
                        &&& u == t
                        &&& *final(self) == *old(self)
                        &&& if !old(self).write_gate_ok(t) {
                            old(self).write_gate_err(t, e)
                        } else {
                            old(self).cur(s) is None && (e matches MdbError::Other(c, _) && c
                                == EINVAL)
                        }
                    },
                }
            }),
    {
        self.del_all(txn)
    }

    /// Store `value` under `key` through the cursor, which then stands
    /// on the stored pair: an upsert without duplicates, an added item
    /// with them.
    pub fn set<T: Txn>(&mut self, key: &Vec<u8>, value: &Vec<u8>, txn: &mut T) -> (r: MdbResult<
        (),
    >)
        requires
            old(txn).txn_view().wf(),
        ensures
            final(txn).txn_view().wf(),
            final(self).same_cursor(*old(self)),
            final(self).valid_value == old(self).valid_value,
            ({
                let t = old(txn).txn_view();
                let u = final(txn).txn_view();
                let s = old(self).store_of(t);
                match r {
                    Ok(()) => {
                        &&& old(self).write_gate_ok(t)
                        &&& !final(self).valid_key
                        &&& cursor_write_frame(*old(self), t, u)
                        &&& ({
                            let s2 = old(self).store_of(u);
                            &&& if !s.has_key(key@) {
                                s2.contents() == s.contents().insert(
                                    s.lb(key@),
                                    (key@, seq![value@]),
                                )
                            } else if !s.dup_allowed {
                                s2.contents() == s.contents().update(
                                    s.lb(key@),
                                    (key@, seq![value@]),
                                )
                            } else {
                                s2.contents() == s.contents().update(
                                    s.lb(key@),
                                    (
                                        key@,
                                        crate::store::dup_put(
                                            s.vals_at(s.lb(key@)),
                                            s.dup_order,
                                            value@,
                                        ),
                                    ),
                                )
                            }
                            &&& final(self).cur(s2) == Some(
                                (
                                    s2.lb(key@),
                                    lower_bound(
                                        s2.vals_at(s2.lb(key@)),
                                        s2.dup_order,
                                        value@,
                                    ),
                                ),
                            )
                        })
                    },
                    Err(e) => {
                        &&& u == t
                        &&& *final(self) == *old(self)
                        &&& old(self).write_gate_err(t, e)
                    },
                }
            }),
    {
        check_normal("cursor", txn.get_state())?;
        let inner = txn.txn_mut();
        if self.db >= inner.work.len() {
            return Err(MdbError::new_with_code(MDB_BAD_DBI));
        }
        if inner.readonly {
            return Err(MdbError::new_with_code(EACCES));
        }
        let ghost pre = inner.work@;
        let mut st = inner.work.remove(self.db);
        let res = st.put(key, value);
        proof {
            let s2 = st;
            lemma_lower_bound(s2.keys(), s2.key_order, key@);
        }
        let l2 = st.find_lower_bound(key);
        let ghost sold = pre[self.db as int];
        let ghost tgt = sold.lb(key@);
        proof {
            let s2 = st;
            assert(sold.wf());
            lemma_lower_bound(sold.keys(), sold.key_order, key@);
            if !sold.has_key(key@) {
                assert(s2.contents() == sold.contents().insert(tgt, (key@, seq![value@])));
                sold.contents().insert_ensures(tgt, (key@, seq![value@]));
                assert(s2.contents()[tgt] == (key@, seq![value@]));
            } else {
                assert(s2.contents()[tgt].0 == key@);
            }
            assert(s2.contents().len() == s2.entries@.len());
            assert(0 <= tgt < s2.contents().len());
            assert(s2.contents()[tgt].0 == s2.entries@[tgt].key@);
            assert(s2.keys()[tgt] == s2.entries@[tgt].key@);
            assert(s2.keys()[tgt] == key@);
            assert(s2.keys().contains(key@)) by {
                assert(s2.keys()[tgt] == key@);
            }
            crate::store::lemma_present_bound_hits(s2.keys(), s2.key_order, key@);
            assert(s2.has_key(key@));
            if s2.lb(key@) != tgt {
                let a = if s2.lb(key@) < tgt {
                    s2.lb(key@)
                } else {
                    tgt
                };
                let b = if s2.lb(key@) < tgt {
                    tgt
                } else {
                    s2.lb(key@)
                };
                assert(ord_cmp(s2.key_order, s2.keys()[a], s2.keys()[b]) < 0);
                crate::order::lemma_ord_cmp_eq(s2.key_order, s2.keys()[a], s2.keys()[b]);
                assert(false);
            }
        }
        let vl2 = st.find_val_lower_bound(l2, value);
        let ghost vs2 = st.vals_at(l2 as int);
        proof {
            let s2 = st;
            lemma_lower_bound(vs2, s2.dup_order, value@);
            assert(vs2.contains(value@)) by {
                if !sold.has_key(key@) {
                    assert(s2.contents()[tgt].1 == seq![value@]);
                    assert(vs2[0] == value@);
                } else if !sold.dup_allowed {
                    assert(s2.contents()[tgt].1 == seq![value@]);
                    assert(vs2[0] == value@);
                } else {
                    let vs = sold.vals_at(tgt);
                    let l0 = lower_bound(vs, sold.dup_order, value@);
                    lemma_lower_bound(vs, sold.dup_order, value@);
                    assert(vs2 == crate::store::dup_put(vs, sold.dup_order, value@));
                    if l0 < vs.len() && vs[l0] == value@ {
                        assert(vs2[l0] == value@);
                    } else {
                        assert(vs2 == vs.insert(l0, value@));
                        assert(vs2[l0] == value@);
                    }
                }
            }
            crate::store::lemma_present_bound_hits(vs2, s2.dup_order, value@);
        }
        self.pos = CursorPos::At(l2, vl2);
        self.valid_key = false;
        inner.work.insert(self.db, st);
        proof {
            assert(inner.work@ =~= pre.update(self.db as int, inner.work@[self.db as int]));
        }
        res
    }

    /// The number of values under the current key.  The engine offers
    /// this only on databases with duplicates.
    pub fn item_count<T: Txn>(&self, txn: &T) -> (r: MdbResult<usize>)
        requires
            txn.txn_view().wf(),
        ensures
            ({
                let t = txn.txn_view();
                let s = self.store_of(t);
                match r {
                    Ok(cnt) => {
                        &&& self.gate_ok(t)
                        &&& s.dup_allowed
                        &&& self.cur(s) matches Some(p) && cnt == s.vals_at(p.0).len()
                    },
                    Err(e) => {
                        if !self.gate_ok(t) {
                            self.gate_err(t, e)
                        } else {
                            (self.cur(s) is None || !s.dup_allowed) && (e matches MdbError::Other(
                                c,
                                _,
                            ) && c == EINVAL)
                        }
                    },
                }
            }),
    {
        self.gate(txn)?;
        let s = &txn.txn_ref().work[self.db];
        if !s.dup_allowed {
            return Err(MdbError::new_with_code(EINVAL));
        }
        match self.current(s) {
            Some((i, _)) => Ok(s.num_vals(i)),
            None => Err(MdbError::new_with_code(EINVAL)),
        }
    }
}

/// A cursor bound to one key, for reading and changing that key's
/// items without repeating the key at every call.
pub struct CursorItemAccessor {
    pub cursor: Cursor,
    pub key: Vec<u8>,
}

impl Cursor {
    /// Bind this cursor to one key.
    pub fn get_item(self, k: &Vec<u8>) -> (r: CursorItemAccessor)
        ensures
            r.cursor == self,
            r.key_view() == k@,
    {
        CursorItemAccessor { cursor: self, key: clone_bytes(k) }
    }
}

impl CursorItemAccessor {
    /// The bound key.
    pub open spec fn key_view(self) -> Seq<u8> {
        self.key@
    }

    /// The cursor inside.
    pub open spec fn cursor_view(self) -> Cursor {
        self.cursor
    }

    /// The first value under the bound key, as `Database::get`.
    pub fn get<T: Txn>(&mut self, txn: &T) -> (r: MdbResult<Vec<u8>>)
        requires
            txn.txn_view().wf(),
        ensures
            final(self).key_view() == old(self).key_view(),
            ({
                let t = txn.txn_view();
                let c = old(self).cursor_view();
                let s = c.store_of(t);
                match r {
                    Ok(v) => c.gate_ok(t) && s.has_key(old(self).key_view()) && s.lookup_first(
                        old(self).key_view(),
                    ) == Some(v@),
                    Err(e) => {
                        if !c.gate_ok(t) {
                            c.gate_err(t, e)
                        } else {
                            !s.has_key(old(self).key_view()) && e == MdbError::NotFound
                        }
                    },
                }
            }),
    {
        let key = clone_bytes(&self.key);
        self.cursor.move_to_key(&key, txn)?;
        let v = self.cursor.get_value(txn)?;
        proof {
            let t = txn.txn_view();
            let s = old(self).cursor_view().store_of(t);
            assert(s.wf());
            assert(s.vals_at(s.lb(old(self).key_view())).len() >= 1);
        }
        Ok(v)
    }

    /// Add a value under the bound key, as `Cursor::set`.
    pub fn add<T: Txn>(&mut self, v: &Vec<u8>, txn: &mut T) -> (r: MdbResult<()>)
        requires
            old(txn).txn_view().wf(),
        ensures
            final(txn).txn_view().wf(),
            final(self).key_view() == old(self).key_view(),
            ({
                let t = old(txn).txn_view();
                let u = final(txn).txn_view();
                let c = old(self).cursor_view();
                let s = c.store_of(t);
                let key = old(self).key_view();
                match r {
                    Ok(()) => {
                        &&& c.write_gate_ok(t)
                        &&& cursor_write_frame(c, t, u)
                        &&& ({
                            let s2 = c.store_of(u);
                            if !s.has_key(key) {
                                s2.contents() == s.contents().insert(s.lb(key), (key, seq![v@]))
                            } else if !s.dup_allowed {
                                s2.contents() == s.contents().update(s.lb(key), (key, seq![v@]))
                            } else {
                                s2.contents() == s.contents().update(
                                    s.lb(key),
                                    (
                                        key,
                                        crate::store::dup_put(s.vals_at(s.lb(key)), s.dup_order, v@),
                                    ),
                                )
                            }
                        })
                    },
                    Err(e) => u.state == t.state && u.readonly == t.readonly && u.work@ == t.work@
                        && c.write_gate_err(t, e),
                }
            }),
    {
        let key = clone_bytes(&self.key);
        self.cursor.set(&key, v, txn)
    }

    /// Remove one value under the bound key; needs duplicates, as
    /// `Cursor::move_to_item` does.
    pub fn del<T: Txn>(&mut self, v: &Vec<u8>, txn: &mut T) -> (r: MdbResult<()>)
        requires
            old(txn).txn_view().wf(),
        ensures
            final(txn).txn_view().wf(),
            final(self).key_view() == old(self).key_view(),
            ({
                let t = old(txn).txn_view();
                let u = final(txn).txn_view();
                let c = old(self).cursor_view();
                let s = c.store_of(t);
                let key = old(self).key_view();
                match r {
                    Ok(()) => {
                        &&& c.write_gate_ok(t)
                        &&& s.dup_allowed
                        &&& s.has_item(key, v@)
                        &&& cursor_write_frame(c, t, u)
                        &&& ({
                            let l = s.lb(key);
                            let vs = s.vals_at(l);
                            let vl = lower_bound(vs, s.dup_order, v@);
                            let s2 = c.store_of(u);
                            if vs.len() > 1 {
                                s2.contents() == s.contents().update(l, (s.keys()[l], vs.remove(vl)))
                            } else {
                                s2.contents() == s.contents().remove(l)
                            }
                        })
                    },
                    Err(e) => {
                        &&& u.state == t.state
                        &&& u.readonly == t.readonly
                        &&& u.work@ == t.work@
                        &&& if !(t.state is Normal) {
                            e is StateError
                        } else if c.db >= t.work@.len() {
                            e matches MdbError::Other(cd, _) && cd == MDB_BAD_DBI
                        } else if !s.dup_allowed {
                            e matches MdbError::Other(cd, _) && cd == EINVAL
                        } else if !s.has_item(key, v@) {
                            e == MdbError::NotFound
                        } else {
                            t.readonly && (e matches MdbError::Other(cd, _) && cd == EACCES)
                        }
                    },
                }
            }),
    {
        let key = clone_bytes(&self.key);
        self.cursor.move_to_item(&key, v, txn)?;
        proof {
            let t = old(txn).txn_view();
            let s = old(self).cursor_view().store_of(t);
            assert(s.wf());
            crate::store::lemma_present_bound_hits(
                s.vals_at(s.lb(old(self).key_view())),
                s.dup_order,
                v@,
            );
        }
        self.cursor.del_item(txn)
    }

    /// Remove the bound key with every value under it.
    pub fn del_all<T: Txn>(&mut self, txn: &mut T) -> (r: MdbResult<()>)
        requires
            old(txn).txn_view().wf(),
        ensures
            final(txn).txn_view().wf(),
            final(self).key_view() == old(self).key_view(),
            ({
                let t = old(txn).txn_view();
                let u = final(txn).txn_view();
                let c = old(self).cursor_view();
                let s = c.store_of(t);
                let key = old(self).key_view();
                match r {
                    Ok(()) => {
                        &&& c.write_gate_ok(t)
                        &&& s.has_key(key)
                        &&& cursor_write_frame(c, t, u)
                        &&& c.store_of(u).contents() == s.contents().remove(s.lb(key))
                    },
                    Err(e) => {
                        &&& u.state == t.state
                        &&& u.readonly == t.readonly
                        &&& u.work@ == t.work@
                        &&& if !(t.state is Normal) {
                            e is StateError
                        } else if c.db >= t.work@.len() {
                            e matches MdbError::Other(cd, _) && cd == MDB_BAD_DBI
                        } else if !s.has_key(key) {
                            e == MdbError::NotFound
                        } else {
                            t.readonly && (e matches MdbError::Other(cd, _) && cd == EACCES)
                        }
                    },
                }
            }),
    {
        let key = clone_bytes(&self.key);
        self.cursor.move_to_key(&key, txn)?;
        proof {
            let t = old(txn).txn_view();
            let s = old(self).cursor_view().store_of(t);
            assert(s.wf());
            assert(s.vals_at(s.lb(old(self).key_view())).len() >= 1);
        }
        self.cursor.del_all(txn)
    }

    /// Hand the cursor back.
    pub fn into_inner(self) -> (r: Cursor)
        ensures
            r == self.cursor_view(),
    {
        let tmp = self;
        tmp.cursor
    }
}

/// A write through the cursor left every other table alone and kept
/// the transaction's state, its read-only flag and the table's
/// configuration.
pub open spec fn cursor_write_frame(c: Cursor, t: NativeTransaction, u: NativeTransaction) -> bool {
    &&& u.state == t.state
    &&& u.readonly == t.readonly
    &&& u.work@.len() == t.work@.len()
    &&& forall|i: int| 0 <= i < t.work@.len() && i != c.db ==> u.work@[i] == t.work@[i]
    &&& c.store_of(u).same_config(c.store_of(t))
}

} // verus!
