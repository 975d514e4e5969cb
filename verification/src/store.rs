//! The record table behind one database handle.
//!
//! A `DbStore` holds the entries of one database as a vector of records,
//! each record a key with the non-empty, sorted vector of its values
//! (one value unless duplicates were allowed at creation).  Records are
//! strictly sorted by the installed key order, values under one key by
//! the installed duplicate order.  Every operation of the layer —
//! point reads and writes, cursor navigation, range iteration — is
//! specified and verified against this table's contents.

use vstd::prelude::*;

use crate::error::{MdbError, MdbResult, EINVAL};
use crate::order::{
    key_compare, lemma_ord_cmp_antisym, lemma_ord_cmp_eq, lemma_ord_cmp_range, lemma_ord_cmp_trans,
    ord_cmp, KeyOrder,
};

verus! {

/// One key with every value stored under it.
pub struct Record {
    pub key: Vec<u8>,
    pub vals: Vec<Vec<u8>>,
}

/// The contents of one database: for each key, in sort order, the key's
/// bytes and its values in duplicate-sort order.
pub type StoreContents = Seq<(Seq<u8>, Seq<Seq<u8>>)>;

/// The record table of one database handle.
pub struct DbStore {
    /// The database's name; the default database has the empty name.
    pub name: String,
    /// The flags the database was created with, kept verbatim.
    pub flags: u32,
    /// Whether several values may be stored under one key.
    pub dup_allowed: bool,
    /// The installed key order.
    pub key_order: KeyOrder,
    /// The installed order of the values under one key.
    pub dup_order: KeyOrder,
    /// The records, strictly sorted by `key_order`.
    pub entries: Vec<Record>,
}

/// Index of the first sequence element that does not sort strictly
/// before `k`; the length if every element does.
pub open spec fn lower_bound(ks: Seq<Seq<u8>>, o: KeyOrder, k: Seq<u8>) -> int
    decreases ks.len(),
{
    if ks.len() == 0 {
        0
    } else if ord_cmp(o, ks[0], k) < 0 {
        1 + lower_bound(ks.skip(1), o, k)
    } else {
        0
    }
}

/// Index of the first sequence element that sorts strictly after `k`;
/// the length if none does.
pub open spec fn upper_bound(ks: Seq<Seq<u8>>, o: KeyOrder, k: Seq<u8>) -> int
    decreases ks.len(),
{
    if ks.len() == 0 {
        0
    } else if ord_cmp(o, ks[0], k) <= 0 {
        1 + upper_bound(ks.skip(1), o, k)
    } else {
        0
    }
}

/// Strictly sorted under the order `o`.
pub open spec fn sorted_under(ks: Seq<Seq<u8>>, o: KeyOrder) -> bool {
    forall|i: int, j: int|
        0 <= i < j < ks.len() ==> #[trigger] ord_cmp(o, ks[i], ks[j]) < 0
}

/// `a` sorts strictly before `b`, and `b` no later than `c`, so `a`
/// sorts strictly before `c`.
pub proof fn lemma_cmp_lt_le(o: KeyOrder, a: Seq<u8>, b: Seq<u8>, c: Seq<u8>)
    requires
        ord_cmp(o, a, b) < 0,
        ord_cmp(o, b, c) <= 0,
    ensures
        ord_cmp(o, a, c) < 0,
{
    lemma_ord_cmp_range(o, b, c);
    if ord_cmp(o, b, c) == 0 {
        lemma_ord_cmp_eq(o, b, c);
    } else {
        lemma_ord_cmp_trans(o, a, b, c);
    }
}

/// `a` sorts no later than `b`, and `b` strictly before `c`, so `a`
/// sorts strictly before `c`.
pub proof fn lemma_cmp_le_lt(o: KeyOrder, a: Seq<u8>, b: Seq<u8>, c: Seq<u8>)
    requires
        ord_cmp(o, a, b) <= 0,
        ord_cmp(o, b, c) < 0,
    ensures
        ord_cmp(o, a, c) < 0,
{
    lemma_ord_cmp_range(o, a, b);
    if ord_cmp(o, a, b) == 0 {
        lemma_ord_cmp_eq(o, a, b);
    } else {
        lemma_ord_cmp_trans(o, a, b, c);
    }
}

/// On a sorted sequence the lower bound splits the indices exactly:
/// everything before it sorts strictly before `k`, nothing at or after
/// it does.
pub proof fn lemma_lower_bound(ks: Seq<Seq<u8>>, o: KeyOrder, k: Seq<u8>)
    requires
        sorted_under(ks, o),
    ensures
        0 <= lower_bound(ks, o, k) <= ks.len(),
        forall|i: int|
            0 <= i < ks.len() ==> (i < lower_bound(ks, o, k) <==> #[trigger] ord_cmp(o, ks[i], k)
                < 0),
    decreases ks.len(),
{
    if ks.len() > 0 {
        let tail = ks.skip(1);
        assert forall|i: int, j: int| 0 <= i < j < tail.len() implies #[trigger] ord_cmp(
            o,
            tail[i],
            tail[j],
        ) < 0 by {
            assert(tail[i] == ks[i + 1]);
            assert(tail[j] == ks[j + 1]);
        }
        lemma_lower_bound(tail, o, k);
        if ord_cmp(o, ks[0], k) < 0 {
            assert forall|i: int| 0 <= i < ks.len() implies (i < lower_bound(ks, o, k)
                <==> #[trigger] ord_cmp(o, ks[i], k) < 0) by {
                if i > 0 {
                    assert(ks[i] == tail[i - 1]);
                }
            }
        } else {
            assert forall|i: int| 0 <= i < ks.len() implies (i < lower_bound(ks, o, k)
                <==> #[trigger] ord_cmp(o, ks[i], k) < 0) by {
                if i > 0 {
                    assert(ord_cmp(o, ks[0], ks[i]) < 0);
                    lemma_ord_cmp_antisym(o, ks[0], k);
                    lemma_cmp_le_lt(o, k, ks[0], ks[i]);
                    lemma_ord_cmp_antisym(o, k, ks[i]);
                }
            }
        }
    }
}

/// On a sorted sequence the upper bound splits the indices exactly:
/// everything before it sorts no later than `k`, everything at or after
/// it strictly after.
pub proof fn lemma_upper_bound(ks: Seq<Seq<u8>>, o: KeyOrder, k: Seq<u8>)
    requires
        sorted_under(ks, o),
    ensures
        0 <= upper_bound(ks, o, k) <= ks.len(),
        forall|i: int|
            0 <= i < ks.len() ==> (i < upper_bound(ks, o, k) <==> #[trigger] ord_cmp(o, ks[i], k)
                <= 0),
    decreases ks.len(),
{
    if ks.len() > 0 {
        let tail = ks.skip(1);
        assert forall|i: int, j: int| 0 <= i < j < tail.len() implies #[trigger] ord_cmp(
            o,
            tail[i],
            tail[j],
        ) < 0 by {
            assert(tail[i] == ks[i + 1]);
            assert(tail[j] == ks[j + 1]);
        }
        lemma_upper_bound(tail, o, k);
        if ord_cmp(o, ks[0], k) <= 0 {
            assert forall|i: int| 0 <= i < ks.len() implies (i < upper_bound(ks, o, k)
                <==> #[trigger] ord_cmp(o, ks[i], k) <= 0) by {
                if i > 0 {
                    assert(ks[i] == tail[i - 1]);
                }
            }
        } else {
            assert forall|i: int| 0 <= i < ks.len() implies (i < upper_bound(ks, o, k)
                <==> #[trigger] ord_cmp(o, ks[i], k) <= 0) by {
                if i > 0 {
                    assert(ord_cmp(o, ks[0], ks[i]) < 0);
                    lemma_ord_cmp_antisym(o, k, ks[0]);
                    lemma_cmp_lt_le(o, k, ks[0], ks[i]);
                    lemma_ord_cmp_antisym(o, k, ks[i]);
                }
            }
        }
    }
}

/// On a sorted sequence the two bounds differ exactly by whether `k`
/// itself is present at the split point.
pub proof fn lemma_bounds_relation(ks: Seq<Seq<u8>>, o: KeyOrder, k: Seq<u8>)
    requires
        sorted_under(ks, o),
    ensures
        upper_bound(ks, o, k) == if lower_bound(ks, o, k) < ks.len() && ks[lower_bound(ks, o, k)]
            == k {
            lower_bound(ks, o, k) + 1
        } else {
            lower_bound(ks, o, k)
        },
{
    let lb = lower_bound(ks, o, k);
    let ub = upper_bound(ks, o, k);
    lemma_lower_bound(ks, o, k);
    lemma_upper_bound(ks, o, k);
    if lb < ks.len() && ks[lb] == k {
        assert forall|i: int| 0 <= i < ks.len() implies (i < lb + 1 <==> #[trigger] ord_cmp(
            o,
            ks[i],
            k,
        ) <= 0) by {
            lemma_ord_cmp_eq(o, ks[i], k);
            if i < lb {
            } else if i == lb {
            } else {
                assert(ord_cmp(o, ks[lb], ks[i]) < 0);
                lemma_ord_cmp_eq(o, ks[lb], k);
                lemma_ord_cmp_antisym(o, ks[lb], ks[i]);
                lemma_cmp_le_lt(o, k, ks[lb], ks[i]);
                lemma_ord_cmp_antisym(o, k, ks[i]);
            }
        }
        if ub < lb + 1 {
            assert(ord_cmp(o, ks[ub], k) <= 0);
        }
        if ub > lb + 1 {
            assert(ord_cmp(o, ks[lb + 1], k) <= 0);
        }
    } else {
        assert forall|i: int| 0 <= i < ks.len() implies (i < lb <==> #[trigger] ord_cmp(o, ks[i], k)
            <= 0) by {
            lemma_ord_cmp_eq(o, ks[i], k);
            if i >= lb {
                if ord_cmp(o, ks[i], k) == 0 {
                    assert(ks[i] == k);
                    if i > lb {
                        assert(ord_cmp(o, ks[lb], ks[i]) < 0);
                        lemma_cmp_lt_le(o, ks[lb], ks[i], k);
                    }
                    assert(false);
                }
            }
        }
        if ub < lb {
            assert(ord_cmp(o, ks[ub], k) <= 0);
        }
        if ub > lb {
            assert(ord_cmp(o, ks[lb], k) <= 0);
        }
    }
}

/// The bounds always fall within the sequence, sorted or not.
pub proof fn lemma_bounds_in_range(ks: Seq<Seq<u8>>, o: KeyOrder, k: Seq<u8>)
    ensures
        0 <= lower_bound(ks, o, k) <= ks.len(),
        0 <= upper_bound(ks, o, k) <= ks.len(),
    decreases ks.len(),
{
    if ks.len() > 0 {
        lemma_bounds_in_range(ks.skip(1), o, k);
    }
}

/// When the lower bound does not land on `v` itself, `v` is absent.
pub proof fn lemma_absent_when_bound_misses(vs: Seq<Seq<u8>>, o: KeyOrder, v: Seq<u8>)
    requires
        sorted_under(vs, o),
        lower_bound(vs, o, v) == vs.len() || vs[lower_bound(vs, o, v)] != v,
    ensures
        !vs.contains(v),
{
    lemma_lower_bound(vs, o, v);
    let l = lower_bound(vs, o, v);
    if vs.contains(v) {
        let w = choose|w: int| 0 <= w < vs.len() && vs[w] == v;
        lemma_ord_cmp_eq(o, vs[w], v);
        assert(ord_cmp(o, vs[w], v) == 0);
        if w > l {
            assert(ord_cmp(o, vs[l], vs[w]) < 0);
            lemma_cmp_lt_le(o, vs[l], vs[w], v);
        }
        assert(false);
    }
}

/// A present element is exactly where the lower bound lands.
pub proof fn lemma_present_bound_hits(vs: Seq<Seq<u8>>, o: KeyOrder, v: Seq<u8>)
    requires
        sorted_under(vs, o),
        vs.contains(v),
    ensures
        0 <= lower_bound(vs, o, v) < vs.len(),
        vs[lower_bound(vs, o, v)] == v,
{
    lemma_lower_bound(vs, o, v);
    if lower_bound(vs, o, v) == vs.len() || vs[lower_bound(vs, o, v)] != v {
        lemma_absent_when_bound_misses(vs, o, v);
    }
}

impl DbStore {
    /// The keys in sort order.
    pub open spec fn keys(self) -> Seq<Seq<u8>> {
        Seq::new(self.entries@.len(), |i: int| self.entries@[i].key@)
    }

    /// The values stored under the `i`-th key, in duplicate-sort order.
    pub open spec fn vals_at(self, i: int) -> Seq<Seq<u8>> {
        self.entries@[i].vals.deep_view()
    }

    /// The full contents: each key with its values.
    pub open spec fn contents(self) -> StoreContents {
        Seq::new(self.entries@.len(), |i: int| (self.entries@[i].key@, self.vals_at(i)))
    }

    /// Index of the first key not sorting strictly before `k`.
    pub open spec fn lb(self, k: Seq<u8>) -> int {
        lower_bound(self.keys(), self.key_order, k)
    }

    /// Whether the key `k` is present: its record would stand at `lb`.
    pub open spec fn has_key(self, k: Seq<u8>) -> bool {
        self.lb(k) < self.entries@.len() && self.keys()[self.lb(k)] == k
    }

    /// The first value under `k`, if the key is present.
    pub open spec fn lookup_first(self, k: Seq<u8>) -> Option<Seq<u8>> {
        if self.has_key(k) {
            Some(self.vals_at(self.lb(k))[0])
        } else {
            None
        }
    }

    /// Whether the pair (`k`, `v`) is present.
    pub open spec fn has_item(self, k: Seq<u8>, v: Seq<u8>) -> bool {
        self.has_key(k) && self.vals_at(self.lb(k)).contains(v)
    }

    /// The structural invariant: records strictly sorted by the key
    /// order, every record non-empty and sorted by the duplicate order,
    /// and single-valued unless duplicates are allowed.
    pub open spec fn wf(self) -> bool {
        &&& sorted_under(self.keys(), self.key_order)
        &&& forall|i: int| 0 <= i < self.entries@.len() ==> #[trigger] self.vals_at(i).len() >= 1
        &&& forall|i: int|
            0 <= i < self.entries@.len() ==> sorted_under(#[trigger] self.vals_at(i), self.dup_order)
        &&& !self.dup_allowed ==> forall|i: int|
            0 <= i < self.entries@.len() ==> #[trigger] self.vals_at(i).len() == 1
    }

    /// The configuration chosen at creation, which no operation changes.
    pub open spec fn same_config(self, other: DbStore) -> bool {
        &&& self.name@ == other.name@
        &&& self.flags == other.flags
        &&& self.dup_allowed == other.dup_allowed
        &&& self.key_order == other.key_order
        &&& self.dup_order == other.dup_order
    }

    /// A key is present exactly when some record holds it.
    pub proof fn lemma_has_key_exists(self, k: Seq<u8>)
        requires
            self.wf(),
        ensures
            self.has_key(k) <==> exists|i: int| 0 <= i < self.contents().len() && self.contents()[i].0 == k,
    {
        lemma_lower_bound(self.keys(), self.key_order, k);
        if self.has_key(k) {
            assert(self.contents()[self.lb(k)].0 == k);
        } else if exists|i: int| 0 <= i < self.contents().len() && self.contents()[i].0 == k {
            let i = choose|i: int| 0 <= i < self.contents().len() && self.contents()[i].0 == k;
            lemma_ord_cmp_eq(self.key_order, self.keys()[i], k);
            assert(ord_cmp(self.key_order, self.keys()[i], k) == 0);
            assert(!(i < self.lb(k)));
            if i > self.lb(k) {
                assert(ord_cmp(self.key_order, self.keys()[self.lb(k)], self.keys()[i]) < 0);
                assert(ord_cmp(self.key_order, self.keys()[self.lb(k)], k) < 0) by {
                    lemma_cmp_lt_le(self.key_order, self.keys()[self.lb(k)], self.keys()[i], k);
                }
            }
        }
    }

    /// Number of keys in the database.
    pub fn num_entries(&self) -> (r: usize)
        ensures
            r == self.contents().len(),
    {
        self.entries.len()
    }

    /// Number of values under the `i`-th key.
    pub fn num_vals(&self, i: usize) -> (r: usize)
        requires
            i < self.contents().len(),
        ensures
            r == self.vals_at(i as int).len(),
    {
        proof {
            lemma_deep_len(&self.entries[i as int].vals);
        }
        self.entries[i].vals.len()
    }

    /// A copy of the `i`-th key.
    pub fn key_at(&self, i: usize) -> (r: Vec<u8>)
        requires
            i < self.contents().len(),
        ensures
            r@ == self.contents()[i as int].0,
    {
        clone_bytes(&self.entries[i].key)
    }

    /// A copy of the `j`-th value under the `i`-th key.
    pub fn val_at(&self, i: usize, j: usize) -> (r: Vec<u8>)
        requires
            i < self.contents().len(),
            j < self.vals_at(i as int).len(),
        ensures
            r@ == self.vals_at(i as int)[j as int],
    {
        proof {
            lemma_deep_index(&self.entries[i as int].vals, j as int);
        }
        clone_bytes(&self.entries[i].vals[j])
    }

    /// Index of the first record whose key does not sort strictly
    /// before `key`.
    pub fn find_lower_bound(&self, key: &Vec<u8>) -> (r: usize)
        requires
            self.wf(),
        ensures
            r as int == self.lb(key@),
    {
        proof {
            lemma_lower_bound(self.keys(), self.key_order, key@);
        }
        let n = self.entries.len();
        let mut i: usize = 0;
        loop
            invariant
                self.wf(),
                n == self.entries@.len(),
                i <= n,
                forall|j: int| 0 <= j < i ==> #[trigger] ord_cmp(self.key_order, self.keys()[j], key@) < 0,
            ensures
                i <= n,
                forall|j: int| 0 <= j < i ==> #[trigger] ord_cmp(self.key_order, self.keys()[j], key@) < 0,
                i == n || ord_cmp(self.key_order, self.keys()[i as int], key@) >= 0,
            decreases n - i,
        {
            if i == n {
                break ;
            }
            let c = key_compare(self.key_order, &self.entries[i].key, key);
            if c >= 0 {
                break ;
            }
            i = i + 1;
        }
        proof {
            let l = self.lb(key@);
            if i < l {
                assert(ord_cmp(self.key_order, self.keys()[i as int], key@) < 0);
            }
            if i > l {
                assert(ord_cmp(self.key_order, self.keys()[l], key@) < 0);
            }
        }
        i
    }

    /// Index of the first value under the `i`-th key that does not sort
    /// strictly before `val`.
    pub fn find_val_lower_bound(&self, i: usize, val: &Vec<u8>) -> (r: usize)
        requires
            self.wf(),
            i < self.contents().len(),
        ensures
            r as int == lower_bound(self.vals_at(i as int), self.dup_order, val@),
    {
        let ghost vs = self.vals_at(i as int);
        proof {
            lemma_lower_bound(vs, self.dup_order, val@);
            lemma_deep_len(&self.entries[i as int].vals);
        }
        let rec = &self.entries[i];
        let n = rec.vals.len();
        let mut j: usize = 0;
        loop
            invariant
                self.wf(),
                i < self.entries@.len(),
                rec == self.entries@[i as int],
                vs == self.vals_at(i as int),
                n == vs.len(),
                j <= n,
                forall|p: int| 0 <= p < j ==> #[trigger] ord_cmp(self.dup_order, vs[p], val@) < 0,
            ensures
                j <= n,
                forall|p: int| 0 <= p < j ==> #[trigger] ord_cmp(self.dup_order, vs[p], val@) < 0,
                j == n || ord_cmp(self.dup_order, vs[j as int], val@) >= 0,
            decreases n - j,
        {
            if j == n {
                break ;
            }
            proof {
                lemma_deep_index(&self.entries[i as int].vals, j as int);
            }
            let c = key_compare(self.dup_order, &rec.vals[j], val);
            if c >= 0 {
                break ;
            }
            j = j + 1;
        }
        proof {
            let l = lower_bound(vs, self.dup_order, val@);
            if j < l {
                assert(ord_cmp(self.dup_order, vs[j as int], val@) < 0);
            }
            if j > l {
                assert(ord_cmp(self.dup_order, vs[l], val@) < 0);
            }
        }
        j
    }
}

/// The values under one key after adding `v`: inserted at its sort
/// position, or left alone if it is already present.
pub open spec fn dup_put(vs: Seq<Seq<u8>>, o: KeyOrder, v: Seq<u8>) -> Seq<Seq<u8>> {
    let l = lower_bound(vs, o, v);
    if l < vs.len() && vs[l] == v {
        vs
    } else {
        vs.insert(l, v)
    }
}

/// Inserting at the split point of a sorted sequence keeps it sorted.
pub proof fn lemma_insert_sorted(ks: Seq<Seq<u8>>, o: KeyOrder, l: int, k: Seq<u8>)
    requires
        sorted_under(ks, o),
        0 <= l <= ks.len(),
        forall|i: int| 0 <= i < l ==> #[trigger] ord_cmp(o, ks[i], k) < 0,
        forall|i: int| l <= i < ks.len() ==> #[trigger] ord_cmp(o, k, ks[i]) < 0,
    ensures
        sorted_under(ks.insert(l, k), o),
{
    let new = ks.insert(l, k);
    assert forall|i: int, j: int| 0 <= i < j < new.len() implies #[trigger] ord_cmp(
        o,
        new[i],
        new[j],
    ) < 0 by {
        if i < l && j < l {
            assert(new[i] == ks[i] && new[j] == ks[j]);
        } else if i < l && j == l {
            assert(new[i] == ks[i] && new[j] == k);
        } else if i < l && j > l {
            assert(new[i] == ks[i] && new[j] == ks[j - 1]);
        } else if i == l {
            assert(new[i] == k && new[j] == ks[j - 1]);
        } else {
            assert(new[i] == ks[i - 1] && new[j] == ks[j - 1]);
        }
    }
}

/// Removing an element of a sorted sequence keeps it sorted.
pub proof fn lemma_remove_sorted(ks: Seq<Seq<u8>>, o: KeyOrder, l: int)
    requires
        sorted_under(ks, o),
        0 <= l < ks.len(),
    ensures
        sorted_under(ks.remove(l), o),
{
    let new = ks.remove(l);
    assert forall|i: int, j: int| 0 <= i < j < new.len() implies #[trigger] ord_cmp(
        o,
        new[i],
        new[j],
    ) < 0 by {
        let oi = if i < l {
            i
        } else {
            i + 1
        };
        let oj = if j < l {
            j
        } else {
            j + 1
        };
        assert(new[i] == ks[oi] && new[j] == ks[oj]);
    }
}

impl DbStore {
    /// The first value under `key`: the one the installed duplicate
    /// order sorts foremost.  Fails `NotFound` when the key is absent.
    pub fn get_first(&self, key: &Vec<u8>) -> (r: MdbResult<Vec<u8>>)
        requires
            self.wf(),
        ensures
            match r {
                Ok(v) => self.has_key(key@) && self.lookup_first(key@) == Some(v@),
                Err(e) => !self.has_key(key@) && e == MdbError::NotFound,
            },
    {
        let l = self.find_lower_bound(key);
        if l < self.entries.len() {
            let c = key_compare(self.key_order, &self.entries[l].key, key);
            if c == 0 {
                proof {
                    lemma_ord_cmp_eq(self.key_order, self.keys()[l as int], key@);
                }
                assert(self.vals_at(l as int).len() >= 1);
                return Ok(self.val_at(l, 0));
            }
            proof {
                lemma_ord_cmp_eq(self.key_order, self.keys()[l as int], key@);
            }
        }
        Err(MdbError::NotFound)
    }

    /// Upsert: under a database without duplicates the value replaces
    /// any present one; with duplicates it is added at its sort
    /// position under the key unless it is already there.
    pub fn put(&mut self, key: &Vec<u8>, val: &Vec<u8>) -> (r: MdbResult<()>)
        requires
            old(self).wf(),
        ensures
            final(self).wf(),
            final(self).same_config(*old(self)),
            r is Ok,
            !old(self).has_key(key@) ==> final(self).contents() == old(self).contents().insert(
                old(self).lb(key@),
                (key@, seq![val@]),
            ),
            old(self).has_key(key@) && !old(self).dup_allowed ==> final(self).contents() == old(
                self,
            ).contents().update(old(self).lb(key@), (key@, seq![val@])),
            old(self).has_key(key@) && old(self).dup_allowed ==> final(self).contents() == old(
                self,
            ).contents().update(
                old(self).lb(key@),
                (
                    key@,
                    dup_put(
                        old(self).vals_at(old(self).lb(key@)),
                        old(self).dup_order,
                        val@,
                    ),
                ),
            ),
    {
        proof {
            lemma_lower_bound(self.keys(), self.key_order, key@);
        }
        let l = self.find_lower_bound(key);
        let found = if l < self.entries.len() {
            let c = key_compare(self.key_order, &self.entries[l].key, key);
            proof {
                lemma_ord_cmp_eq(self.key_order, self.keys()[l as int], key@);
            }
            c == 0
        } else {
            false
        };
        if !found {
            let rec = Record { key: clone_bytes(key), vals: vec![clone_bytes(val)] };
            proof {
                let ks = self.keys();
                assert forall|i: int| l <= i < ks.len() implies #[trigger] ord_cmp(
                    self.key_order,
                    key@,
                    ks[i],
                ) < 0 by {
                    if i == l {
                        lemma_ord_cmp_antisym(self.key_order, ks[i], key@);
                        lemma_ord_cmp_eq(self.key_order, ks[i], key@);
                    } else {
                        assert(ord_cmp(self.key_order, ks[l as int], ks[i]) < 0);
                        lemma_ord_cmp_antisym(self.key_order, ks[l as int], key@);
                        lemma_ord_cmp_eq(self.key_order, ks[l as int], key@);
                        lemma_cmp_le_lt(self.key_order, key@, ks[l as int], ks[i]);
                    }
                }
                lemma_insert_sorted(ks, self.key_order, l as int, key@);
            }
            let ghost pre = *self;
            self.entries.insert(l, rec);
            proof {
                assert(self.keys() =~= pre.keys().insert(l as int, key@));
                assert forall|i: int| 0 <= i < self.entries@.len() implies #[trigger] self.vals_at(
                    i,
                ) == if i < l {
                    pre.vals_at(i)
                } else if i == l {
                    seq![val@]
                } else {
                    pre.vals_at(i - 1)
                } by {
                    if i == l {
                        lemma_deep_index(&self.entries@[i].vals, 0);
                        assert(self.vals_at(i) =~= seq![val@]);
                    }
                }
                assert(self.contents() =~~= pre.contents().insert(l as int, (key@, seq![val@])));
            }
            return Ok(());
        }
        // The key is present at index l.
        if !self.dup_allowed {
            let mut rec = self.entries.remove(l);
            rec.vals = vec![clone_bytes(val)];
            let ghost pre = *old(self);
            self.entries.insert(l, rec);
            proof {
                assert(self.keys() =~= pre.keys());
                assert forall|i: int| 0 <= i < self.entries@.len() implies #[trigger] self.vals_at(
                    i,
                ) == if i == l {
                    seq![val@]
                } else {
                    pre.vals_at(i)
                } by {
                    if i == l {
                        lemma_deep_index(&self.entries@[i].vals, 0);
                        assert(self.vals_at(i) =~= seq![val@]);
                    } else {
                        assert(self.entries@[i] == pre.entries@[i]);
                    }
                }
                assert(self.contents() =~~= pre.contents().update(l as int, (key@, seq![val@])));
            }
            return Ok(());
        }
        // Duplicates allowed: add the value at its sort position.
        let ghost vs = self.vals_at(l as int);
        proof {
            lemma_lower_bound(vs, self.dup_order, val@);
        }
        let vl = self.find_val_lower_bound(l, val);
        let mut in_place = false;
        if vl < self.num_vals(l) {
            proof {
                lemma_deep_index(&self.entries@[l as int].vals, vl as int);
            }
            let c = key_compare(self.dup_order, &self.entries[l].vals[vl], val);
            proof {
                lemma_ord_cmp_eq(self.dup_order, vs[vl as int], val@);
            }
            in_place = c == 0;
        }
        if in_place {
            proof {
                assert(dup_put(vs, self.dup_order, val@) == vs);
                assert(self.contents() =~~= old(self).contents().update(
                    l as int,
                    (key@, dup_put(vs, old(self).dup_order, val@)),
                ));
            }
            return Ok(());
        }
        let mut rec = self.entries.remove(l);
        proof {
            if vl < vs.len() {
                lemma_ord_cmp_eq(self.dup_order, vs[vl as int], val@);
            }
            assert forall|p: int| vl <= p < vs.len() implies #[trigger] ord_cmp(
                self.dup_order,
                val@,
                vs[p],
            ) < 0 by {
                if p == vl {
                    lemma_ord_cmp_antisym(self.dup_order, vs[p], val@);
                    lemma_ord_cmp_eq(self.dup_order, vs[p], val@);
                } else {
                    assert(ord_cmp(self.dup_order, vs[vl as int], vs[p]) < 0);
                    lemma_ord_cmp_antisym(self.dup_order, vs[vl as int], val@);
                    lemma_ord_cmp_eq(self.dup_order, vs[vl as int], val@);
                    lemma_cmp_le_lt(self.dup_order, val@, vs[vl as int], vs[p]);
                }
            }
            lemma_insert_sorted(vs, self.dup_order, vl as int, val@);
            lemma_deep_len(&rec.vals);
        }
        rec.vals.insert(vl, clone_bytes(val));
        let ghost pre = *old(self);
        proof {
            assert forall|p: int| 0 <= p < rec.vals@.len() implies #[trigger] rec.vals.deep_view()[p]
                == vs.insert(vl as int, val@)[p] by {
            lemma_deep_index(&rec.vals, p);
            }
            assert(rec.vals.deep_view() =~= vs.insert(vl as int, val@));
        }
        self.entries.insert(l, rec);
        proof {
            assert(self.keys() =~= pre.keys());
            assert forall|i: int| 0 <= i < self.entries@.len() implies #[trigger] self.vals_at(i)
                == if i == l {
                vs.insert(vl as int, val@)
            } else {
                pre.vals_at(i)
            } by {
                if i != l {
                    assert(self.entries@[i] == pre.entries@[i]);
                }
            }
            assert(self.contents() =~~= pre.contents().update(
                l as int,
                (key@, dup_put(vs, pre.dup_order, val@)),
            ));
        }
        Ok(())
    }

    /// Insert, failing `KeyExists` when the key is already present,
    /// even under a database that allows duplicates.
    pub fn put_no_overwrite(&mut self, key: &Vec<u8>, val: &Vec<u8>) -> (r: MdbResult<()>)
        requires
            old(self).wf(),
        ensures
            final(self).wf(),
            final(self).same_config(*old(self)),
            match r {
                Ok(()) => !old(self).has_key(key@) && final(self).contents() == old(
                    self,
                ).contents().insert(old(self).lb(key@), (key@, seq![val@])),
                Err(e) => old(self).has_key(key@) && e == MdbError::KeyExists && *final(self)
                    == *old(self),
            },
    {
        let l = self.find_lower_bound(key);
        if l < self.entries.len() {
            let c = key_compare(self.key_order, &self.entries[l].key, key);
            proof {
                lemma_ord_cmp_eq(self.key_order, self.keys()[l as int], key@);
            }
            if c == 0 {
                return Err(MdbError::KeyExists);
            }
        }
        self.put(key, val)
    }

    /// Append a key that must sort strictly after every present key;
    /// an out-of-order key fails `KeyExists`.
    pub fn put_append(&mut self, key: &Vec<u8>, val: &Vec<u8>) -> (r: MdbResult<()>)
        requires
            old(self).wf(),
        ensures
            final(self).wf(),
            final(self).same_config(*old(self)),
            ({
                let n = old(self).contents().len();
                let ok = n == 0 || ord_cmp(
                    old(self).key_order,
                    old(self).keys()[n - 1],
                    key@,
                ) < 0;
                match r {
                    Ok(()) => ok && final(self).contents() == old(self).contents().push(
                        (key@, seq![val@]),
                    ),
                    Err(e) => !ok && e == MdbError::KeyExists && *final(self) == *old(self),
                }
            }),
    {
        let n = self.entries.len();
        if n > 0 {
            let c = key_compare(self.key_order, &self.entries[n - 1].key, key);
            if c >= 0 {
                return Err(MdbError::KeyExists);
            }
        }
        let rec = Record { key: clone_bytes(key), vals: vec![clone_bytes(val)] };
        let ghost pre = *self;
        self.entries.push(rec);
        proof {
            assert forall|i: int, j: int| 0 <= i < j < self.keys().len() implies #[trigger] ord_cmp(
                self.key_order,
                self.keys()[i],
                self.keys()[j],
            ) < 0 by {
                if j < n {
                    assert(ord_cmp(pre.key_order, pre.keys()[i], pre.keys()[j]) < 0);
                } else {
                    assert(self.keys()[j] == key@);
                    if i < n - 1 {
                        assert(ord_cmp(pre.key_order, pre.keys()[i], pre.keys()[n - 1]) < 0);
                        lemma_cmp_lt_le(pre.key_order, pre.keys()[i], pre.keys()[n - 1], key@);
                    }
                }
            }
            assert forall|i: int| 0 <= i < self.entries@.len() implies #[trigger] self.vals_at(i)
                == if i < n {
                pre.vals_at(i)
            } else {
                seq![val@]
            } by {
                if i < n {
                    assert(self.entries@[i] == pre.entries@[i]);
                } else {
                    lemma_deep_index(&self.entries@[i].vals, 0);
                    assert(self.vals_at(i) =~= seq![val@]);
                }
            }
            assert(self.contents() =~~= pre.contents().push((key@, seq![val@])));
        }
        Ok(())
    }

    /// Append a value for a key that must be the last one, the value
    /// sorting strictly after every value already under it.  Needs
    /// duplicates; on a single-value database the engine reports an
    /// invalid argument.
    pub fn put_append_dup(&mut self, key: &Vec<u8>, val: &Vec<u8>) -> (r: MdbResult<()>)
        requires
            old(self).wf(),
        ensures
            final(self).wf(),
            final(self).same_config(*old(self)),
            !old(self).dup_allowed ==> (r matches Err(e) && e matches MdbError::Other(c, _) && c
                == EINVAL && *final(self) == *old(self)),
            old(self).dup_allowed ==> ({
                let n = old(self).contents().len();
                if n == 0 || ord_cmp(old(self).key_order, old(self).keys()[n - 1], key@) < 0 {
                    r is Ok && final(self).contents() == old(self).contents().push(
                        (key@, seq![val@]),
                    )
                } else if old(self).keys()[n - 1] == key@ && ord_cmp(
                    old(self).dup_order,
                    old(self).vals_at(n - 1).last(),
                    val@,
                ) < 0 {
                    r is Ok && final(self).contents() == old(self).contents().update(
                        n - 1,
                        (key@, old(self).vals_at(n - 1).push(val@)),
                    )
                } else {
                    r == Err::<(), MdbError>(MdbError::KeyExists) && *final(self) == *old(self)
                }
            }),
    {
        if !self.dup_allowed {
            return Err(MdbError::new_with_code(EINVAL));
        }
        let n = self.entries.len();
        if n == 0 {
            return self.put_append(key, val);
        }
        let c = key_compare(self.key_order, &self.entries[n - 1].key, key);
        if c < 0 {
            return self.put_append(key, val);
        }
        proof {
            lemma_ord_cmp_eq(self.key_order, self.keys()[n - 1], key@);
        }
        if c > 0 {
            return Err(MdbError::KeyExists);
        }
        // The key is the last one; the value must extend its run.
        let ghost vs = self.vals_at(n - 1);
        let m = self.num_vals(n - 1);
        proof {
            lemma_deep_index(&self.entries@[n - 1].vals, m - 1);
        }
        let vc = key_compare(self.dup_order, &self.entries[n - 1].vals[m - 1], val);
        if vc >= 0 {
            return Err(MdbError::KeyExists);
        }
        let mut rec = self.entries.remove(n - 1);
        rec.vals.push(clone_bytes(val));
        let ghost pre = *old(self);
        proof {
            assert forall|p: int| 0 <= p < rec.vals@.len() implies #[trigger] rec.vals.deep_view()[p]
                == vs.push(val@)[p] by {
                lemma_deep_index(&rec.vals, p);
            }
            assert(rec.vals.deep_view() =~= vs.push(val@));
            assert forall|p: int, q: int| 0 <= p < q < vs.push(val@).len() implies #[trigger] ord_cmp(
                pre.dup_order,
                vs.push(val@)[p],
                vs.push(val@)[q],
            ) < 0 by {
                if q < vs.len() {
                    assert(ord_cmp(pre.dup_order, vs[p], vs[q]) < 0);
                } else {
                    assert(vs.push(val@)[q] == val@);
                    if p < vs.len() - 1 {
                        assert(ord_cmp(pre.dup_order, vs[p], vs[vs.len() - 1]) < 0);
                        lemma_cmp_lt_le(pre.dup_order, vs[p], vs[vs.len() - 1], val@);
                    }
                }
            }
        }
        self.entries.insert(n - 1, rec);
        proof {
            assert(self.keys() =~= pre.keys());
            assert forall|i: int| 0 <= i < self.entries@.len() implies #[trigger] self.vals_at(i)
                == if i == n - 1 {
                vs.push(val@)
            } else {
                pre.vals_at(i)
            } by {
                if i != n - 1 {
                    assert(self.entries@[i] == pre.entries@[i]);
                }
            }
            assert(self.contents() =~~= pre.contents().update(n - 1, (key@, vs.push(val@))));
        }
        Ok(())
    }

    /// Remove a key together with all its values; an absent key fails
    /// `NotFound`.
    pub fn del_key(&mut self, key: &Vec<u8>) -> (r: MdbResult<()>)
        requires
            old(self).wf(),
        ensures
            final(self).wf(),
            final(self).same_config(*old(self)),
            match r {
                Ok(()) => old(self).has_key(key@) && final(self).contents() == old(
                    self,
                ).contents().remove(old(self).lb(key@)),
                Err(e) => !old(self).has_key(key@) && e == MdbError::NotFound && *final(self)
                    == *old(self),
            },
    {
        let l = self.find_lower_bound(key);
        let mut found = false;
        if l < self.entries.len() {
            let c = key_compare(self.key_order, &self.entries[l].key, key);
            proof {
                lemma_ord_cmp_eq(self.key_order, self.keys()[l as int], key@);
            }
            found = c == 0;
        }
        if !found {
            return Err(MdbError::NotFound);
        }
        let ghost pre = *self;
        self.entries.remove(l);
        proof {
            lemma_remove_sorted(pre.keys(), pre.key_order, l as int);
            assert(self.keys() =~= pre.keys().remove(l as int));
            assert forall|i: int| 0 <= i < self.entries@.len() implies #[trigger] self.vals_at(i)
                == if i < l {
                pre.vals_at(i)
            } else {
                pre.vals_at(i + 1)
            } by {
                if i < l {
                    assert(self.entries@[i] == pre.entries@[i]);
                } else {
                    assert(self.entries@[i] == pre.entries@[i + 1]);
                }
            }
            assert(self.contents() =~~= pre.contents().remove(l as int));
        }
        Ok(())
    }

    /// Remove one (key, value) pair.  Under a database without
    /// duplicates the value is ignored and the whole key is removed, as
    /// the engine does.  An absent pair fails `NotFound`.
    pub fn del_exact(&mut self, key: &Vec<u8>, val: &Vec<u8>) -> (r: MdbResult<()>)
        requires
            old(self).wf(),
        ensures
            final(self).wf(),
            final(self).same_config(*old(self)),
            !old(self).dup_allowed ==> match r {
                Ok(()) => old(self).has_key(key@) && final(self).contents() == old(
                    self,
                ).contents().remove(old(self).lb(key@)),
                Err(e) => !old(self).has_key(key@) && e == MdbError::NotFound && *final(self)
                    == *old(self),
            },
            old(self).dup_allowed ==> match r {
                Ok(()) => {
                    &&& old(self).has_item(key@, val@)
                    &&& ({
                        let l = old(self).lb(key@);
                        let vs = old(self).vals_at(l);
                        let vl = lower_bound(vs, old(self).dup_order, val@);
                        if vs.len() == 1 {
                            final(self).contents() == old(self).contents().remove(l)
                        } else {
                            final(self).contents() == old(self).contents().update(
                                l,
                                (old(self).keys()[l], vs.remove(vl)),
                            )
                        }
                    })
                },
                Err(e) => !old(self).has_item(key@, val@) && e == MdbError::NotFound
                    && *final(self) == *old(self),
            },
    {
        if !self.dup_allowed {
            return self.del_key(key);
        }
        let l = self.find_lower_bound(key);
        let mut found = false;
        if l < self.entries.len() {
            let c = key_compare(self.key_order, &self.entries[l].key, key);
            proof {
                lemma_ord_cmp_eq(self.key_order, self.keys()[l as int], key@);
            }
            found = c == 0;
        }
        if !found {
            proof {
                assert(!old(self).has_item(key@, val@));
            }
            return Err(MdbError::NotFound);
        }
        let ghost vs = self.vals_at(l as int);
        proof {
            lemma_lower_bound(vs, self.dup_order, val@);
        }
        let vl = self.find_val_lower_bound(l, val);
        let m = self.num_vals(l);
        let mut val_found = false;
        if vl < m {
            proof {
                lemma_deep_index(&self.entries@[l as int].vals, vl as int);
            }
            let c = key_compare(self.dup_order, &self.entries[l].vals[vl], val);
            proof {
                lemma_ord_cmp_eq(self.dup_order, vs[vl as int], val@);
            }
            val_found = c == 0;
        }
        proof {
            if val_found {
                assert(vs.contains(val@)) by {
                    assert(vs[vl as int] == val@);
                }
            } else if vs.contains(val@) {
                let w = choose|w: int| 0 <= w < vs.len() && vs[w] == val@;
                lemma_ord_cmp_eq(self.dup_order, vs[w], val@);
                assert(ord_cmp(self.dup_order, vs[w], val@) == 0);
                assert(!(w < vl)) by {
                    if w < vl {
                        assert(ord_cmp(self.dup_order, vs[w], val@) < 0);
                    }
                }
                assert(!(w > vl)) by {
                    if w > vl {
                        assert(ord_cmp(self.dup_order, vs[vl as int], vs[w]) < 0);
                        lemma_cmp_lt_le(self.dup_order, vs[vl as int], vs[w], val@);
                    }
                }
                assert(false);
            }
        }
        if !val_found {
            return Err(MdbError::NotFound);
        }
        if m == 1 {
            let ghost pre = *self;
            self.entries.remove(l);
            proof {
                lemma_remove_sorted(pre.keys(), pre.key_order, l as int);
                assert(self.keys() =~= pre.keys().remove(l as int));
                assert forall|i: int| 0 <= i < self.entries@.len() implies #[trigger] self.vals_at(
                    i,
                ) == if i < l {
                    pre.vals_at(i)
                } else {
                    pre.vals_at(i + 1)
                } by {
                    if i < l {
                        assert(self.entries@[i] == pre.entries@[i]);
                    } else {
                        assert(self.entries@[i] == pre.entries@[i + 1]);
                    }
                }
                assert(self.contents() =~~= pre.contents().remove(l as int));
            }
            return Ok(());
        }
        let mut rec = self.entries.remove(l);
        rec.vals.remove(vl);
        let ghost pre = *old(self);
        proof {
            assert forall|p: int| 0 <= p < rec.vals@.len() implies #[trigger] rec.vals.deep_view()[p]
                == vs.remove(vl as int)[p] by {
                lemma_deep_index(&rec.vals, p);
            }
            assert(rec.vals.deep_view() =~= vs.remove(vl as int));
            lemma_remove_sorted(vs, pre.dup_order, vl as int);
        }
        self.entries.insert(l, rec);
        proof {
            assert(self.keys() =~= pre.keys());
            assert forall|i: int| 0 <= i < self.entries@.len() implies #[trigger] self.vals_at(i)
                == if i == l {
                vs.remove(vl as int)
            } else {
                pre.vals_at(i)
            } by {
                if i != l {
                    assert(self.entries@[i] == pre.entries@[i]);
                }
            }
            assert(self.contents() =~~= pre.contents().update(
                l as int,
                (pre.keys()[l as int], vs.remove(vl as int)),
            ));
        }
        Ok(())
    }

    /// Overwrite the `j`-th value under the `i`-th key.  Under a
    /// database with duplicates the new value must keep the position's
    /// sort order (the engine refuses a misplaced overwrite as an
    /// invalid argument); without duplicates the single value is simply
    /// replaced.
    pub fn replace_val_at(&mut self, i: usize, j: usize, val: &Vec<u8>) -> (r: MdbResult<()>)
        requires
            old(self).wf(),
            i < old(self).contents().len(),
            j < old(self).vals_at(i as int).len(),
        ensures
            final(self).wf(),
            final(self).same_config(*old(self)),
            ({
                let vs = old(self).vals_at(i as int);
                let fits = !old(self).dup_allowed || ((j == 0 || ord_cmp(
                    old(self).dup_order,
                    vs[j - 1],
                    val@,
                ) < 0) && (j + 1 == vs.len() || ord_cmp(old(self).dup_order, val@, vs[j + 1]) < 0));
                match r {
                    Ok(()) => fits && final(self).contents() == old(self).contents().update(
                        i as int,
                        (old(self).keys()[i as int], vs.update(j as int, val@)),
                    ),
                    Err(e) => !fits && (e matches MdbError::Other(c, _) && c == EINVAL) && *final(
                        self) == *old(self),
                }
            }),
    {
        let ghost vs = self.vals_at(i as int);
        let m = self.num_vals(i);
        if self.dup_allowed {
            let mut fits = true;
            if j > 0 {
                proof {
                    lemma_deep_index(&self.entries@[i as int].vals, j - 1);
                }
                let c = key_compare(self.dup_order, &self.entries[i].vals[j - 1], val);
                if c >= 0 {
                    fits = false;
                }
            }
            if j + 1 < m {
                proof {
                    lemma_deep_index(&self.entries@[i as int].vals, j + 1);
                }
                let c = key_compare(self.dup_order, val, &self.entries[i].vals[j + 1]);
                if c >= 0 {
                    fits = false;
                }
            }
            if !fits {
                return Err(MdbError::new_with_code(EINVAL));
            }
        }
        let mut rec = self.entries.remove(i);
        rec.vals.set(j, clone_bytes(val));
        let ghost pre = *old(self);
        proof {
            assert forall|p: int| 0 <= p < rec.vals@.len() implies #[trigger] rec.vals.deep_view()[p]
                == vs.update(j as int, val@)[p] by {
                lemma_deep_index(&rec.vals, p);
            }
            assert(rec.vals.deep_view() =~= vs.update(j as int, val@));
            let nv = vs.update(j as int, val@);
            if pre.dup_allowed {
                assert forall|p: int, q: int| 0 <= p < q < nv.len() implies #[trigger] ord_cmp(
                    pre.dup_order,
                    nv[p],
                    nv[q],
                ) < 0 by {
                    if q == j {
                        if p < j - 1 {
                            assert(ord_cmp(pre.dup_order, vs[p], vs[j - 1]) < 0);
                            lemma_ord_cmp_trans(pre.dup_order, vs[p], vs[j - 1], val@);
                        }
                    } else if p == j {
                        if q > j + 1 {
                            assert(ord_cmp(pre.dup_order, vs[j + 1], vs[q]) < 0);
                            lemma_ord_cmp_trans(pre.dup_order, val@, vs[j + 1], vs[q]);
                        }
                    } else {
                        assert(ord_cmp(pre.dup_order, vs[p], vs[q]) < 0);
                    }
                }
            } else {
                assert(nv.len() == 1);
            }
        }
        self.entries.insert(i, rec);
        proof {
            assert(self.keys() =~= pre.keys());
            assert forall|w: int| 0 <= w < self.entries@.len() implies #[trigger] self.vals_at(w)
                == if w == i {
                vs.update(j as int, val@)
            } else {
                pre.vals_at(w)
            } by {
                if w != i {
                    assert(self.entries@[w] == pre.entries@[w]);
                }
            }
            assert(self.contents() =~~= pre.contents().update(
                i as int,
                (pre.keys()[i as int], vs.update(j as int, val@)),
            ));
        }
        Ok(())
    }

    /// Remove the `j`-th value under the `i`-th key; the whole record
    /// goes when its last value goes.
    pub fn del_at(&mut self, i: usize, j: usize)
        requires
            old(self).wf(),
            i < old(self).contents().len(),
            j < old(self).vals_at(i as int).len(),
        ensures
            final(self).wf(),
            final(self).same_config(*old(self)),
            ({
                let vs = old(self).vals_at(i as int);
                if vs.len() == 1 {
                    final(self).contents() == old(self).contents().remove(i as int)
                } else {
                    final(self).contents() == old(self).contents().update(
                        i as int,
                        (old(self).keys()[i as int], vs.remove(j as int)),
                    )
                }
            }),
    {
        let ghost vs = self.vals_at(i as int);
        let m = self.num_vals(i);
        if m == 1 {
            self.del_record_at(i);
            return ;
        }
        let mut rec = self.entries.remove(i);
        rec.vals.remove(j);
        let ghost pre = *old(self);
        proof {
            assert forall|p: int| 0 <= p < rec.vals@.len() implies #[trigger] rec.vals.deep_view()[p]
                == vs.remove(j as int)[p] by {
                lemma_deep_index(&rec.vals, p);
            }
            assert(rec.vals.deep_view() =~= vs.remove(j as int));
            lemma_remove_sorted(vs, pre.dup_order, j as int);
        }
        self.entries.insert(i, rec);
        proof {
            assert(self.keys() =~= pre.keys());
            assert forall|w: int| 0 <= w < self.entries@.len() implies #[trigger] self.vals_at(w)
                == if w == i {
                vs.remove(j as int)
            } else {
                pre.vals_at(w)
            } by {
                if w != i {
                    assert(self.entries@[w] == pre.entries@[w]);
                }
            }
            assert(self.contents() =~~= pre.contents().update(
                i as int,
                (pre.keys()[i as int], vs.remove(j as int)),
            ));
        }
    }

    /// Remove the `i`-th key together with all its values.
    pub fn del_record_at(&mut self, i: usize)
        requires
            old(self).wf(),
            i < old(self).contents().len(),
        ensures
            final(self).wf(),
            final(self).same_config(*old(self)),
            final(self).contents() == old(self).contents().remove(i as int),
    {
        let ghost pre = *self;
        self.entries.remove(i);
        proof {
            lemma_remove_sorted(pre.keys(), pre.key_order, i as int);
            assert(self.keys() =~= pre.keys().remove(i as int));
            assert forall|w: int| 0 <= w < self.entries@.len() implies #[trigger] self.vals_at(w)
                == if w < i {
                pre.vals_at(w)
            } else {
                pre.vals_at(w + 1)
            } by {
                if w < i {
                    assert(self.entries@[w] == pre.entries@[w]);
                } else {
                    assert(self.entries@[w] == pre.entries@[w + 1]);
                }
            }
            assert(self.contents() =~~= pre.contents().remove(i as int));
        }
    }

    /// A fresh, empty database table with the given name and flags,
    /// both orders lexicographic.
    pub fn new_store(name: String, flags: u32, dup_allowed: bool) -> (r: DbStore)
        ensures
            r.wf(),
            r.name@ == name@,
            r.flags == flags,
            r.dup_allowed == dup_allowed,
            r.key_order == KeyOrder::Lexical,
            r.dup_order == KeyOrder::Lexical,
            r.contents() == Seq::<(Seq<u8>, Seq<Seq<u8>>)>::empty(),
    {
        let r = DbStore {
            name,
            flags,
            dup_allowed,
            key_order: KeyOrder::Lexical,
            dup_order: KeyOrder::Lexical,
            entries: Vec::new(),
        };
        proof {
            assert(r.contents() =~~= Seq::<(Seq<u8>, Seq<Seq<u8>>)>::empty());
        }
        r
    }

    /// Install the key order.  Only possible before any data access:
    /// on a non-empty table the request is refused, where the engine
    /// would silently corrupt the sort order instead.
    pub fn install_key_order(&mut self, o: KeyOrder) -> (r: MdbResult<()>)
        requires
            old(self).wf(),
        ensures
            final(self).wf(),
            match r {
                Ok(()) => old(self).contents().len() == 0 && *final(self) == DbStore {
                    key_order: o,
                    ..*old(self)
                },
                Err(e) => old(self).contents().len() > 0 && (e matches MdbError::Other(c, _) && c
                    == EINVAL) && *final(self) == *old(self),
            },
    {
        if self.entries.len() > 0 {
            return Err(MdbError::new_with_code(EINVAL));
        }
        self.key_order = o;
        Ok(())
    }

    /// Install the order of the values under one key.  Only possible
    /// before any data access, as with `install_key_order`.
    pub fn install_dup_order(&mut self, o: KeyOrder) -> (r: MdbResult<()>)
        requires
            old(self).wf(),
        ensures
            final(self).wf(),
            match r {
                Ok(()) => old(self).contents().len() == 0 && *final(self) == DbStore {
                    dup_order: o,
                    ..*old(self)
                },
                Err(e) => old(self).contents().len() > 0 && (e matches MdbError::Other(c, _) && c
                    == EINVAL) && *final(self) == *old(self),
            },
    {
        if self.entries.len() > 0 {
            return Err(MdbError::new_with_code(EINVAL));
        }
        self.dup_order = o;
        Ok(())
    }

    /// An exact copy of the table, for transaction snapshots.
    pub fn clone_store(&self) -> (r: DbStore)
        ensures
            r.name@ == self.name@,
            r.flags == self.flags,
            r.dup_allowed == self.dup_allowed,
            r.key_order == self.key_order,
            r.dup_order == self.dup_order,
            r.contents() == self.contents(),
            r.keys() == self.keys(),
            self.wf() ==> r.wf(),
    {
        let mut entries: Vec<Record> = Vec::new();
        let mut i: usize = 0;
        while i < self.entries.len()
            invariant
                i <= self.entries@.len(),
                entries@.len() == i,
                forall|j: int|
                    0 <= j < i ==> #[trigger] entries@[j].key@ == self.entries@[j].key@
                        && entries@[j].vals.deep_view() == self.entries@[j].vals.deep_view(),
            decreases self.entries@.len() - i,
        {
            let rec = Record {
                key: clone_bytes(&self.entries[i].key),
                vals: clone_vals(&self.entries[i].vals),
            };
            entries.push(rec);
            i = i + 1;
        }
        let r = DbStore {
            name: self.name.clone(),
            flags: self.flags,
            dup_allowed: self.dup_allowed,
            key_order: self.key_order,
            dup_order: self.dup_order,
            entries,
        };
        proof {
            assert(r.keys() =~= self.keys());
            assert forall|i: int| 0 <= i < r.entries@.len() implies #[trigger] r.vals_at(i)
                == self.vals_at(i) by {
                assert(r.entries@[i].key@ == self.entries@[i].key@);
                assert(r.entries@[i].vals.deep_view() == self.entries@[i].vals.deep_view());
            }
            assert(r.contents() =~~= self.contents());
            if self.wf() {
                assert forall|i: int| 0 <= i < r.entries@.len() implies #[trigger] r.vals_at(
                    i,
                ).len() >= 1 && sorted_under(r.vals_at(i), r.dup_order) by {
                    assert(self.vals_at(i).len() >= 1);
                    assert(sorted_under(self.vals_at(i), self.dup_order));
                }
            }
        }
        r
    }

    /// Remove every entry; the handle and its configuration stay valid.
    pub fn clear_store(&mut self)
        ensures
            final(self).wf(),
            final(self).same_config(*old(self)),
            final(self).contents() == Seq::<(Seq<u8>, Seq<Seq<u8>>)>::empty(),
    {
        self.entries.clear();
        proof {
            assert(self.contents() =~~= Seq::<(Seq<u8>, Seq<Seq<u8>>)>::empty());
        }
    }
}

/// Same databases with the same contents.
pub open spec fn same_stores(a: Seq<DbStore>, b: Seq<DbStore>) -> bool {
    &&& a.len() == b.len()
    &&& forall|i: int|
        0 <= i < a.len() ==> (#[trigger] a[i]).contents() == b[i].contents() && a[i].same_config(
            b[i],
        )
}

/// The same set of databases by name, whatever their contents or
/// configuration: the test of whether a transaction's working copy
/// belongs to an environment.
pub open spec fn compatible_stores(a: Seq<DbStore>, b: Seq<DbStore>) -> bool {
    &&& a.len() == b.len()
    &&& forall|i: int| 0 <= i < a.len() ==> (#[trigger] a[i]).name@ == b[i].name@
}

/// All tables well formed.
pub open spec fn stores_wf(a: Seq<DbStore>) -> bool {
    forall|i: int| 0 <= i < a.len() ==> (#[trigger] a[i]).wf()
}

/// An exact copy of a whole set of tables, for transaction snapshots.
pub fn clone_stores(v: &Vec<DbStore>) -> (r: Vec<DbStore>)
    ensures
        same_stores(r@, v@),
        stores_wf(v@) ==> stores_wf(r@),
{
    let mut r: Vec<DbStore> = Vec::new();
    let mut i: usize = 0;
    while i < v.len()
        invariant
            i <= v@.len(),
            r@.len() == i,
            forall|j: int|
                0 <= j < i ==> (#[trigger] r@[j]).contents() == v@[j].contents()
                    && r@[j].same_config(v@[j]) && (v@[j].wf() ==> r@[j].wf()),
        decreases v@.len() - i,
    {
        r.push(v[i].clone_store());
        i = i + 1;
    }
    r
}

/// Whether two sets of tables are the same databases, contents aside.
pub fn check_compatible(a: &Vec<DbStore>, b: &Vec<DbStore>) -> (r: bool)
    ensures
        r == compatible_stores(a@, b@),
{
    if a.len() != b.len() {
        return false;
    }
    let mut i: usize = 0;
    while i < a.len()
        invariant
            a@.len() == b@.len(),
            i <= a@.len(),
            forall|j: int| 0 <= j < i ==> (#[trigger] a@[j]).name@ == b@[j].name@,
        decreases a@.len() - i,
    {
        if !(a[i].name == b[i].name) {
            return false;
        }
        i = i + 1;
    }
    true
}

/// Length of a vector's element-wise view.
pub proof fn lemma_deep_len(vs: &Vec<Vec<u8>>)
    ensures
        vs.deep_view().len() == vs@.len(),
{
}

/// An element of a vector's element-wise view is that element's view.
pub proof fn lemma_deep_index(vs: &Vec<Vec<u8>>, i: int)
    requires
        0 <= i < vs@.len(),
    ensures
        vs.deep_view()[i] == vs@[i]@,
{
    assert(vs.deep_view()[i] == vs@[i].deep_view());
    assert(vs@[i].deep_view() =~= vs@[i]@);
}

/// An exact copy of a byte vector.
pub fn clone_bytes(v: &Vec<u8>) -> (r: Vec<u8>)
    ensures
        r@ == v@,
{
    let mut r: Vec<u8> = Vec::new();
    let mut i: usize = 0;
    while i < v.len()
        invariant
            i <= v@.len(),
            r@ == v@.take(i as int),
        decreases v@.len() - i,
    {
        r.push(v[i]);
        proof {
            assert(v@.take(i + 1) =~= v@.take(i as int).push(v@[i as int]));
        }
        i = i + 1;
    }
    proof {
        assert(v@.take(v@.len() as int) =~= v@);
    }
    r
}

/// An exact copy of a value vector.
pub fn clone_vals(vs: &Vec<Vec<u8>>) -> (r: Vec<Vec<u8>>)
    ensures
        r.deep_view() == vs.deep_view(),
        r@.len() == vs@.len(),
{
    let mut r: Vec<Vec<u8>> = Vec::new();
    let mut i: usize = 0;
    while i < vs.len()
        invariant
            i <= vs@.len(),
            r@.len() == i,
            forall|j: int| 0 <= j < i ==> #[trigger] r@[j]@ == vs@[j]@,
        decreases vs@.len() - i,
    {
        r.push(clone_bytes(&vs[i]));
        i = i + 1;
    }
    proof {
        assert forall|j: int| 0 <= j < vs@.len() implies #[trigger] r.deep_view()[j]
            == vs.deep_view()[j] by {
            lemma_deep_index(&r, j);
            lemma_deep_index(vs, j);
        }
        assert(r.deep_view() =~= vs.deep_view());
    }
    r
}

} // verus!
