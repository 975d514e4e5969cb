//! Lazy range iteration: a cursor wrapped with a policy that says how
//! to position it first and how to advance it.
//!
//! Key policies yield one pair per key — the key with its first value
//! — over a contiguous run of keys: the whole database, everything
//! from a key, everything strictly before a key, or a range with the
//! upper end in or out.  The item policy yields every value under one
//! fixed key.  The produced sequence is finite, forward-only and not
//! restartable; each policy's `yields` spells the whole sequence out,
//! and `next` hands out exactly its elements, in order.

use vstd::prelude::*;

use crate::cursor::Cursor;
use crate::error::MdbResult;
use crate::order::key_compare;
use crate::store::{
    lemma_lower_bound, lemma_upper_bound, lower_bound, upper_bound, DbStore,
};
use crate::transaction::{NativeTransaction, Txn};

verus! {

/// One lazily produced key/value pair.
pub struct CursorValue {
    pub key: Vec<u8>,
    pub value: Vec<u8>,
}

impl CursorValue {
    /// The pair's key.
    pub fn get_key(&self) -> (r: &Vec<u8>)
        ensures
            r@ == self.key@,
    {
        &self.key
    }

    /// The pair's value.
    pub fn get_value(&self) -> (r: &Vec<u8>)
        ensures
            r@ == self.value@,
    {
        &self.value
    }

    /// The pair itself.
    pub fn get(&self) -> (r: (&Vec<u8>, &Vec<u8>))
        ensures
            r.0@ == self.key@,
            r.1@ == self.value@,
    {
        (&self.key, &self.value)
    }
}

/// A cursor iteration behaviour: how to position the cursor on the
/// first element, how to advance it, and what the whole produced
/// sequence is.
pub trait IterateCursor: Sized {
    /// The full sequence of pairs this policy produces over `s`.
    spec fn yields(&self, s: DbStore) -> Seq<(Seq<u8>, Seq<u8>)>;

    /// Whether the cursor stands on the `n`-th produced pair.
    spec fn at_pos(&self, s: DbStore, n: int, c: Cursor) -> bool;

    /// Standing on a pair depends only on where the cursor stands,
    /// not on its validity flags.
    proof fn at_pos_flags(&self, s: DbStore, n: int, c1: Cursor, c2: Cursor)
        requires
            self.at_pos(s, n, c1),
            c2.pos == c1.pos,
            c2.db == c1.db,
        ensures
            self.at_pos(s, n, c2),
    ;

    /// Standing on the `n`-th pair means the cursor can read it.
    proof fn at_pos_readable(&self, s: DbStore, n: int, c: Cursor)
        requires
            s.wf(),
            0 <= n < self.yields(s).len(),
            self.at_pos(s, n, c),
        ensures
            c.cur(s) matches Some(p) && s.keys()[p.0] == self.yields(s)[n].0 && s.vals_at(p.0)[p.1]
                == self.yields(s)[n].1,
    ;

    /// Position the cursor on the first pair; the result says whether
    /// one exists.
    fn init_cursor<T: Txn>(&self, cursor: &mut Cursor, txn: &T) -> (r: bool)
        requires
            txn.txn_view().wf(),
            old(cursor).gate_ok(txn.txn_view()),
        ensures
            final(cursor).same_cursor(*old(cursor)),
            ({
                let s = old(cursor).store_of(txn.txn_view());
                &&& r == (self.yields(s).len() > 0)
                &&& r ==> self.at_pos(s, 0, *final(cursor))
            }),
    ;

    /// Advance from the `n`-th pair; the result says whether a next
    /// pair exists and is still in range.
    fn move_to_next<T: Txn>(&self, cursor: &mut Cursor, txn: &T, n: Ghost<int>) -> (r: bool)
        requires
            txn.txn_view().wf(),
            old(cursor).gate_ok(txn.txn_view()),
            0 <= n@ < self.yields(old(cursor).store_of(txn.txn_view())).len(),
            self.at_pos(old(cursor).store_of(txn.txn_view()), n@, *old(cursor)),
        ensures
            final(cursor).same_cursor(*old(cursor)),
            ({
                let s = old(cursor).store_of(txn.txn_view());
                &&& r == (n@ + 1 < self.yields(s).len())
                &&& r ==> self.at_pos(s, n@ + 1, *final(cursor))
            }),
    ;
}

/// The pairs of a contiguous run of keys: each key with its first
/// value.
pub open spec fn key_run(s: DbStore, lo: int, hi: int) -> Seq<(Seq<u8>, Seq<u8>)> {
    if 0 <= lo <= hi <= s.contents().len() {
        Seq::new((hi - lo) as nat, |i: int| (s.keys()[lo + i], s.vals_at(lo + i)[0]))
    } else {
        Seq::empty()
    }
}

/// Full scan: every key from the first on, one pair per key.
pub struct CursorIter;

impl IterateCursor for CursorIter {
    open spec fn yields(&self, s: DbStore) -> Seq<(Seq<u8>, Seq<u8>)> {
        key_run(s, 0, s.contents().len() as int)
    }

    open spec fn at_pos(&self, s: DbStore, n: int, c: Cursor) -> bool {
        c.cur(s) == Some((n, 0int))
    }

    proof fn at_pos_flags(&self, s: DbStore, n: int, c1: Cursor, c2: Cursor) {
    }

    proof fn at_pos_readable(&self, s: DbStore, n: int, c: Cursor) {
    }

    fn init_cursor<T: Txn>(&self, cursor: &mut Cursor, txn: &T) -> (r: bool) {
        cursor.move_to_first(txn).is_ok()
    }

    fn move_to_next<T: Txn>(&self, cursor: &mut Cursor, txn: &T, n: Ghost<int>) -> (r: bool) {
        cursor.move_to_next_key(txn).is_ok()
    }
}

/// Everything from `start_key` on (inclusive), one pair per key.
pub struct CursorFromKeyIter {
    pub start_key: Vec<u8>,
}

impl CursorFromKeyIter {
    pub fn new(start_key: &Vec<u8>) -> (r: CursorFromKeyIter)
        ensures
            r.start_key@ == start_key@,
    {
        CursorFromKeyIter { start_key: crate::store::clone_bytes(start_key) }
    }
}

impl IterateCursor for CursorFromKeyIter {
    open spec fn yields(&self, s: DbStore) -> Seq<(Seq<u8>, Seq<u8>)> {
        key_run(s, s.lb(self.start_key@), s.contents().len() as int)
    }

    open spec fn at_pos(&self, s: DbStore, n: int, c: Cursor) -> bool {
        c.cur(s) == Some((s.lb(self.start_key@) + n, 0int))
    }

    proof fn at_pos_flags(&self, s: DbStore, n: int, c1: Cursor, c2: Cursor) {
    }

    proof fn at_pos_readable(&self, s: DbStore, n: int, c: Cursor) {
        lemma_lower_bound(s.keys(), s.key_order, self.start_key@);
    }

    fn init_cursor<T: Txn>(&self, cursor: &mut Cursor, txn: &T) -> (r: bool) {
        proof {
            let s = old(cursor).store_of(txn.txn_view());
            assert(s.wf());
            lemma_lower_bound(s.keys(), s.key_order, self.start_key@);
        }
        let key = crate::store::clone_bytes(&self.start_key);
        cursor.move_to_gte_key(&key, txn).is_ok()
    }

    fn move_to_next<T: Txn>(&self, cursor: &mut Cursor, txn: &T, n: Ghost<int>) -> (r: bool) {
        proof {
            let s = old(cursor).store_of(txn.txn_view());
            assert(s.wf());
            lemma_lower_bound(s.keys(), s.key_order, self.start_key@);
        }
        cursor.move_to_next_key(txn).is_ok()
    }
}

/// Everything strictly before `end_key`, one pair per key.
pub struct CursorToKeyIter {
    pub end_key: Vec<u8>,
}

impl CursorToKeyIter {
    pub fn new(end_key: &Vec<u8>) -> (r: CursorToKeyIter)
        ensures
            r.end_key@ == end_key@,
    {
        CursorToKeyIter { end_key: crate::store::clone_bytes(end_key) }
    }
}

impl IterateCursor for CursorToKeyIter {
    open spec fn yields(&self, s: DbStore) -> Seq<(Seq<u8>, Seq<u8>)> {
        key_run(s, 0, s.lb(self.end_key@))
    }

    open spec fn at_pos(&self, s: DbStore, n: int, c: Cursor) -> bool {
        c.cur(s) == Some((n, 0int))
    }

    proof fn at_pos_flags(&self, s: DbStore, n: int, c1: Cursor, c2: Cursor) {
    }

    proof fn at_pos_readable(&self, s: DbStore, n: int, c: Cursor) {
        lemma_lower_bound(s.keys(), s.key_order, self.end_key@);
    }

    fn init_cursor<T: Txn>(&self, cursor: &mut Cursor, txn: &T) -> (r: bool) {
        proof {
            let s = old(cursor).store_of(txn.txn_view());
            assert(s.wf());
            lemma_lower_bound(s.keys(), s.key_order, self.end_key@);
        }
        if cursor.move_to_first(txn).is_err() {
            return false;
        }
        let k = match cursor.get_key(txn) {
            Ok(k) => k,
            Err(_) => {
                return false;
            },
        };
        let s = &txn.txn_ref().work[cursor.db];
        proof {
            assert forall|w: int| 0 <= w < s.contents().len() implies (
            #[trigger] s.contents()[w]).0 == s.keys()[w] by {}
        }
        let c = key_compare(s.key_order, &k, &self.end_key);
        c < 0
    }

    fn move_to_next<T: Txn>(&self, cursor: &mut Cursor, txn: &T, n: Ghost<int>) -> (r: bool) {
        proof {
            let s = old(cursor).store_of(txn.txn_view());
            assert(s.wf());
            lemma_lower_bound(s.keys(), s.key_order, self.end_key@);
        }
        if cursor.move_to_next_key(txn).is_err() {
            return false;
        }
        let k = match cursor.get_key(txn) {
            Ok(k) => k,
            Err(_) => {
                return false;
            },
        };
        let s = &txn.txn_ref().work[cursor.db];
        proof {
            assert forall|w: int| 0 <= w < s.contents().len() implies (
            #[trigger] s.contents()[w]).0 == s.keys()[w] by {}
        }
        let c = key_compare(s.key_order, &k, &self.end_key);
        c < 0
    }
}

/// The keys from `start_key` up to `end_key`, the upper end included
/// or not as chosen; one pair per key.
pub struct CursorKeyRangeIter {
    pub start_key: Vec<u8>,
    pub end_key: Vec<u8>,
    pub end_inclusive: bool,
}

impl CursorKeyRangeIter {
    pub fn new(start_key: &Vec<u8>, end_key: &Vec<u8>, end_inclusive: bool) -> (r:
        CursorKeyRangeIter)
        ensures
            r.start_key@ == start_key@,
            r.end_key@ == end_key@,
            r.end_inclusive == end_inclusive,
    {
        CursorKeyRangeIter {
            start_key: crate::store::clone_bytes(start_key),
            end_key: crate::store::clone_bytes(end_key),
            end_inclusive,
        }
    }

    /// One past the last key index in range.
    pub open spec fn hi(&self, s: DbStore) -> int {
        if self.end_inclusive {
            upper_bound(s.keys(), s.key_order, self.end_key@)
        } else {
            s.lb(self.end_key@)
        }
    }
}

impl IterateCursor for CursorKeyRangeIter {
    open spec fn yields(&self, s: DbStore) -> Seq<(Seq<u8>, Seq<u8>)> {
        key_run(s, s.lb(self.start_key@), self.hi(s))
    }

    open spec fn at_pos(&self, s: DbStore, n: int, c: Cursor) -> bool {
        c.cur(s) == Some((s.lb(self.start_key@) + n, 0int))
    }

    proof fn at_pos_flags(&self, s: DbStore, n: int, c1: Cursor, c2: Cursor) {
    }

    proof fn at_pos_readable(&self, s: DbStore, n: int, c: Cursor) {
        lemma_lower_bound(s.keys(), s.key_order, self.start_key@);
        lemma_lower_bound(s.keys(), s.key_order, self.end_key@);
        lemma_upper_bound(s.keys(), s.key_order, self.end_key@);
    }

    fn init_cursor<T: Txn>(&self, cursor: &mut Cursor, txn: &T) -> (r: bool) {
        proof {
            let s = old(cursor).store_of(txn.txn_view());
            assert(s.wf());
            lemma_lower_bound(s.keys(), s.key_order, self.start_key@);
            lemma_lower_bound(s.keys(), s.key_order, self.end_key@);
            lemma_upper_bound(s.keys(), s.key_order, self.end_key@);
        }
        let key = crate::store::clone_bytes(&self.start_key);
        if cursor.move_to_gte_key(&key, txn).is_err() {
            return false;
        }
        let k = match cursor.get_key(txn) {
            Ok(k) => k,
            Err(_) => {
                return false;
            },
        };
        let s = &txn.txn_ref().work[cursor.db];
        proof {
            assert forall|w: int| 0 <= w < s.contents().len() implies (
            #[trigger] s.contents()[w]).0 == s.keys()[w] by {}
        }
        let c = key_compare(s.key_order, &k, &self.end_key);
        if self.end_inclusive {
            c <= 0
        } else {
            c < 0
        }
    }

    fn move_to_next<T: Txn>(&self, cursor: &mut Cursor, txn: &T, n: Ghost<int>) -> (r: bool) {
        proof {
            let s = old(cursor).store_of(txn.txn_view());
            assert(s.wf());
            lemma_lower_bound(s.keys(), s.key_order, self.start_key@);
            lemma_lower_bound(s.keys(), s.key_order, self.end_key@);
            lemma_upper_bound(s.keys(), s.key_order, self.end_key@);
        }
        if cursor.move_to_next_key(txn).is_err() {
            return false;
        }
        let k = match cursor.get_key(txn) {
            Ok(k) => k,
            Err(_) => {
                return false;
            },
        };
        let s = &txn.txn_ref().work[cursor.db];
        proof {
            assert forall|w: int| 0 <= w < s.contents().len() implies (
            #[trigger] s.contents()[w]).0 == s.keys()[w] by {}
        }
        let c = key_compare(s.key_order, &k, &self.end_key);
        if self.end_inclusive {
            c <= 0
        } else {
            c < 0
        }
    }
}

/// Every value under one fixed key.
pub struct CursorItemIter {
    pub key: Vec<u8>,
}

impl CursorItemIter {
    pub fn new(key: &Vec<u8>) -> (r: CursorItemIter)
        ensures
            r.key@ == key@,
    {
        CursorItemIter { key: crate::store::clone_bytes(key) }
    }
}

impl IterateCursor for CursorItemIter {
    open spec fn yields(&self, s: DbStore) -> Seq<(Seq<u8>, Seq<u8>)> {
        if s.has_key(self.key@) {
            Seq::new(
                s.vals_at(s.lb(self.key@)).len(),
                |j: int| (s.keys()[s.lb(self.key@)], s.vals_at(s.lb(self.key@))[j]),
            )
        } else {
            Seq::empty()
        }
    }

    open spec fn at_pos(&self, s: DbStore, n: int, c: Cursor) -> bool {
        c.cur(s) == Some((s.lb(self.key@), n))
    }

    proof fn at_pos_flags(&self, s: DbStore, n: int, c1: Cursor, c2: Cursor) {
    }

    proof fn at_pos_readable(&self, s: DbStore, n: int, c: Cursor) {
        lemma_lower_bound(s.keys(), s.key_order, self.key@);
    }

    fn init_cursor<T: Txn>(&self, cursor: &mut Cursor, txn: &T) -> (r: bool) {
        proof {
            let s = old(cursor).store_of(txn.txn_view());
            assert(s.wf());
            lemma_lower_bound(s.keys(), s.key_order, self.key@);
            if s.has_key(self.key@) {
                assert(s.vals_at(s.lb(self.key@)).len() >= 1);
            }
        }
        let key = crate::store::clone_bytes(&self.key);
        cursor.move_to_key(&key, txn).is_ok()
    }

    fn move_to_next<T: Txn>(&self, cursor: &mut Cursor, txn: &T, n: Ghost<int>) -> (r: bool) {
        proof {
            let s = old(cursor).store_of(txn.txn_view());
            assert(s.wf());
            lemma_lower_bound(s.keys(), s.key_order, self.key@);
        }
        cursor.move_to_next_item(txn).is_ok()
    }
}

/// A cursor wrapped with an iteration policy: hands out the policy's
/// pairs one by one.
pub struct CursorIterator<I> {
    pub inner: I,
    pub has_data: bool,
    pub cursor: Cursor,
    pub emitted: Ghost<int>,
}

impl<I: IterateCursor> CursorIterator<I> {
    /// The iterator is in step `emitted` of the policy's sequence over
    /// its transaction's view.
    pub open spec fn wf_iter(self, t: NativeTransaction) -> bool {
        &&& self.cursor.gate_ok(t)
        &&& 0 <= self.emitted@ <= self.inner.yields(self.cursor.store_of(t)).len()
        &&& self.has_data == (self.emitted@ < self.inner.yields(self.cursor.store_of(t)).len())
        &&& self.has_data ==> self.inner.at_pos(
            self.cursor.store_of(t),
            self.emitted@,
            self.cursor,
        )
    }

    /// Wrap a cursor: position it on the policy's first pair.
    pub fn wrap<T: Txn>(cursor: Cursor, inner: I, txn: &T) -> (r: CursorIterator<I>)
        requires
            txn.txn_view().wf(),
            cursor.gate_ok(txn.txn_view()),
        ensures
            r.wf_iter(txn.txn_view()),
            r.emitted@ == 0,
            r.inner == inner,
            r.cursor.same_cursor(cursor),
    {
        let mut cursor = cursor;
        let has_data = inner.init_cursor(&mut cursor, txn);
        CursorIterator { inner, has_data, cursor, emitted: Ghost(0) }
    }

    /// The next pair of the policy's sequence, or `None` when it is
    /// exhausted.
    pub fn next<T: Txn>(&mut self, txn: &T) -> (r: Option<CursorValue>)
        requires
            txn.txn_view().wf(),
            old(self).wf_iter(txn.txn_view()),
        ensures
            final(self).wf_iter(txn.txn_view()),
            final(self).inner == old(self).inner,
            final(self).cursor.same_cursor(old(self).cursor),
            ({
                let ys = old(self).inner.yields(
                    old(self).cursor.store_of(txn.txn_view()),
                );
                match r {
                    Some(cv) => {
                        &&& old(self).emitted@ < ys.len()
                        &&& cv.key@ == ys[old(self).emitted@].0
                        &&& cv.value@ == ys[old(self).emitted@].1
                        &&& final(self).emitted@ == old(self).emitted@ + 1
                    },
                    None => old(self).emitted@ == ys.len() && final(self).emitted@ == old(
                        self,
                    ).emitted@,
                }
            }),
    {
        if !self.has_data {
            return None;
        }
        proof {
            let t = txn.txn_view();
            let s = old(self).cursor.store_of(t);
            assert(s.wf());
            old(self).inner.at_pos_readable(s, old(self).emitted@, old(self).cursor);
        }
        let kv = match self.cursor.get(txn) {
            Ok(kv) => kv,
            Err(_) => {
                proof {
                    assert(false);
                }
                return None;
            },
        };
        let ghost n = self.emitted@;
        proof {
            let t = txn.txn_view();
            let s = old(self).cursor.store_of(t);
            self.inner.at_pos_flags(s, n, old(self).cursor, self.cursor);
        }
        let has_data = self.inner.move_to_next(&mut self.cursor, txn, Ghost(n));
        self.has_data = has_data;
        proof {
            self.emitted@ = self.emitted@ + 1;
        }
        Some(CursorValue { key: kv.0, value: kv.1 })
    }
}

} // verus!
