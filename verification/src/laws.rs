//! The layer's laws: properties that tie several operations together,
//! stated over the same views the operations' own contracts use, and
//! proved once and for all inputs.

use vstd::prelude::*;

use crate::environment::{cache_lookup, open_db_post, CacheEntry, Environment};
use crate::error::MdbResult;
use crate::order::{lemma_ord_cmp_eq, ord_cmp};
use crate::store::{
    lemma_bounds_relation, lemma_lower_bound, lemma_present_bound_hits, lower_bound, same_stores,
    sorted_under, upper_bound, DbStore,
};
use crate::transaction::{commit_target, TransactionState};

verus! {

/// Law: under a database without duplicates, the value written for a
/// key — the table change that `Database::set` and `Cursor::set`
/// promise — is exactly what a later lookup of that key sees.  A
/// commit hands the written tables to the environment unchanged, and a
/// later read transaction snapshots them unchanged, so the read
/// observes this value.
pub proof fn lemma_write_then_read(s: DbStore, s2: DbStore, key: Seq<u8>, val: Seq<u8>)
    requires
        s.wf(),
        s2.wf(),
        !s.dup_allowed,
        s2.same_config(s),
        if !s.has_key(key) {
            s2.contents() == s.contents().insert(s.lb(key), (key, seq![val]))
        } else {
            s2.contents() == s.contents().update(s.lb(key), (key, seq![val]))
        },
    ensures
        s2.lookup_first(key) == Some(val),
{
    let tgt = s.lb(key);
    lemma_lower_bound(s.keys(), s.key_order, key);
    if !s.has_key(key) {
        s.contents().insert_ensures(tgt, (key, seq![val]));
        assert(s2.contents()[tgt] == (key, seq![val]));
    } else {
        assert(s2.contents()[tgt] == (key, seq![val]));
    }
    assert(s2.contents().len() == s2.entries@.len());
    assert(0 <= tgt < s2.contents().len());
    assert(s2.contents()[tgt].0 == s2.entries@[tgt].key@);
    assert(s2.keys()[tgt] == s2.entries@[tgt].key@);
    assert(s2.keys().contains(key)) by {
        assert(s2.keys()[tgt] == key);
    }
    lemma_present_bound_hits(s2.keys(), s2.key_order, key);
    let l2 = s2.lb(key);
    if l2 != tgt {
        let a = if l2 < tgt {
            l2
        } else {
            tgt
        };
        let b = if l2 < tgt {
            tgt
        } else {
            l2
        };
        assert(ord_cmp(s2.key_order, s2.keys()[a], s2.keys()[b]) < 0);
        lemma_ord_cmp_eq(s2.key_order, s2.keys()[a], s2.keys()[b]);
        assert(false);
    }
    assert(s2.contents()[l2].1 == s2.vals_at(l2));
    assert(s2.vals_at(l2) == seq![val]);
}

/// Law: under a database with duplicates, the value written for a key
/// — the table change that `Database::set` and `Cursor::set` promise
/// — is afterwards stored under that key: item iteration, whose
/// produced sequence is exactly the key's values, observes it.  (A
/// plain lookup returns the key's sort-foremost value, which an
/// earlier duplicate may already hold.)
pub proof fn lemma_write_observable(s: DbStore, s2: DbStore, key: Seq<u8>, val: Seq<u8>)
    requires
        s.wf(),
        s2.wf(),
        s.dup_allowed,
        s2.same_config(s),
        if !s.has_key(key) {
            s2.contents() == s.contents().insert(s.lb(key), (key, seq![val]))
        } else {
            s2.contents() == s.contents().update(
                s.lb(key),
                (key, crate::store::dup_put(s.vals_at(s.lb(key)), s.dup_order, val)),
            )
        },
    ensures
        s2.has_item(key, val),
{
    let tgt = s.lb(key);
    lemma_lower_bound(s.keys(), s.key_order, key);
    if !s.has_key(key) {
        s.contents().insert_ensures(tgt, (key, seq![val]));
        assert(s2.contents()[tgt] == (key, seq![val]));
    } else {
        assert(s2.contents()[tgt].0 == key);
    }
    assert(s2.contents().len() == s2.entries@.len());
    assert(0 <= tgt < s2.contents().len());
    assert(s2.contents()[tgt].0 == s2.entries@[tgt].key@);
    assert(s2.keys()[tgt] == s2.entries@[tgt].key@);
    assert(s2.keys().contains(key)) by {
        assert(s2.keys()[tgt] == key);
    }
    lemma_present_bound_hits(s2.keys(), s2.key_order, key);
    let l2 = s2.lb(key);
    if l2 != tgt {
        let a = if l2 < tgt {
            l2
        } else {
            tgt
        };
        let b = if l2 < tgt {
            tgt
        } else {
            l2
        };
        assert(ord_cmp(s2.key_order, s2.keys()[a], s2.keys()[b]) < 0);
        lemma_ord_cmp_eq(s2.key_order, s2.keys()[a], s2.keys()[b]);
        assert(false);
    }
    assert(s2.contents()[l2].1 == s2.vals_at(l2));
    let vs2 = s2.vals_at(l2);
    assert(vs2.contains(val)) by {
        if !s.has_key(key) {
            assert(vs2 == seq![val]);
            assert(vs2[0] == val);
        } else {
            let vs = s.vals_at(tgt);
            let l0 = lower_bound(vs, s.dup_order, val);
            lemma_lower_bound(vs, s.dup_order, val);
            assert(vs2 == crate::store::dup_put(vs, s.dup_order, val));
            if l0 < vs.len() && vs[l0] == val {
                assert(vs2[l0] == val);
            } else {
                assert(vs2 == vs.insert(l0, val));
                assert(vs2[l0] == val);
            }
        }
    }
}

/// Law: two transactions over the same tables see the same first
/// value for every key — a read transaction begun after a commit
/// observes exactly the committed data.
pub proof fn lemma_snapshot_read(a: Seq<DbStore>, b: Seq<DbStore>, h: int, key: Seq<u8>)
    requires
        same_stores(a, b),
        0 <= h < a.len(),
    ensures
        a[h].lookup_first(key) == b[h].lookup_first(key),
{
    let x = a[h];
    let y = b[h];
    assert(x.contents() == y.contents());
    assert(x.keys() =~= y.keys()) by {
        assert forall|i: int| 0 <= i < x.keys().len() implies x.keys()[i] == y.keys()[i] by {
            assert(x.contents()[i].0 == x.keys()[i]);
            assert(y.contents()[i].0 == y.keys()[i]);
        }
    }
    assert(x.lb(key) == y.lb(key));
    if x.has_key(key) {
        let l = x.lb(key);
        crate::store::lemma_bounds_in_range(x.keys(), x.key_order, key);
        assert(x.contents().len() == x.entries@.len());
        assert(y.contents().len() == y.entries@.len());
        assert(0 <= l < x.contents().len());
        assert(x.contents()[l].1 == x.vals_at(l));
        assert(y.contents()[l].1 == y.vals_at(l));
        assert(x.vals_at(l) == y.vals_at(l));
    }
}

/// Law: committing a read-only transaction releases it — the state a
/// renew accepts — and never invalidates it; committing a read-write
/// transaction invalidates it for good, so it can never be reused.
pub proof fn lemma_commit_states()
    ensures
        commit_target(true) == TransactionState::Released,
        commit_target(false) == TransactionState::Invalid,
        commit_target(true) != commit_target(false),
{
}

/// Law: after deleting a key with all its values — the table change
/// that `Cursor::del_all` and `Database::del` promise — the key is
/// absent from every subsequent lookup.
pub proof fn lemma_del_all_then_get(s: DbStore, s2: DbStore, key: Seq<u8>)
    requires
        s.wf(),
        s2.wf(),
        s2.same_config(s),
        s.has_key(key),
        s2.contents() == s.contents().remove(s.lb(key)),
    ensures
        !s2.has_key(key),
        s2.lookup_first(key) == None::<Seq<u8>>,
{
    let tgt = s.lb(key);
    lemma_lower_bound(s.keys(), s.key_order, key);
    s.contents().remove_ensures(tgt);
    if s2.has_key(key) {
        let w = s2.lb(key);
        crate::store::lemma_bounds_in_range(s2.keys(), s2.key_order, key);
        assert(s2.keys()[w] == key);
        assert(s2.contents().len() == s2.entries@.len());
        assert(s.contents().len() == s.entries@.len());
        assert(0 <= w < s2.contents().len());
        assert(s2.contents() == s.contents().remove(tgt));
        assert(s2.contents()[w].0 == s2.keys()[w]);
        let ow = if w < tgt {
            w
        } else {
            w + 1
        };
        assert(s2.contents()[w] == s.contents()[ow]);
        assert(s.keys()[ow] == s.contents()[ow].0);
        assert(s.keys()[ow] == key);
        assert(ow != tgt);
        let a = if ow < tgt {
            ow
        } else {
            tgt
        };
        let b = if ow < tgt {
            tgt
        } else {
            ow
        };
        assert(ord_cmp(s.key_order, s.keys()[a], s.keys()[b]) < 0);
        lemma_ord_cmp_eq(s.key_order, s.keys()[a], s.keys()[b]);
        assert(false);
    }
}

/// Law: a full scan hands keys out in the installed key order — a
/// custom comparator installed before first use reorders iteration
/// accordingly.  The keys of the yielded pairs are strictly increasing
/// under the installed order.
pub proof fn lemma_scan_ordered(s: DbStore)
    requires
        s.wf(),
    ensures
        ({
            let ys = crate::iter::key_run(s, 0, s.contents().len() as int);
            forall|i: int, j: int|
                0 <= i < j < ys.len() ==> #[trigger] ord_cmp(s.key_order, ys[i].0, ys[j].0) < 0
        }),
{
    let ys = crate::iter::key_run(s, 0, s.contents().len() as int);
    assert forall|i: int, j: int| 0 <= i < j < ys.len() implies #[trigger] ord_cmp(
        s.key_order,
        ys[i].0,
        ys[j].0,
    ) < 0 by {
        assert(ys[i].0 == s.keys()[i]);
        assert(ys[j].0 == s.keys()[j]);
        assert(ord_cmp(s.key_order, s.keys()[i], s.keys()[j]) < 0);
    }
}

/// Law: the forward and the backward duplicate searches are inverse
/// directions of one another: at a value that is present under a key,
/// the first value at least the target and the last value at most the
/// target are the same value — the target itself.
pub proof fn lemma_dup_searches_agree(vs: Seq<Seq<u8>>, o: crate::order::KeyOrder, v: Seq<u8>)
    requires
        sorted_under(vs, o),
        vs.contains(v),
    ensures
        lower_bound(vs, o, v) == upper_bound(vs, o, v) - 1,
        vs[lower_bound(vs, o, v)] == v,
{
    lemma_present_bound_hits(vs, o, v);
    lemma_bounds_relation(vs, o, v);
}

/// A lookup in a cache that grew by one entry at the end, for a name
/// it did not hold, finds exactly that entry.
proof fn lemma_cache_lookup_extend(c1: Seq<CacheEntry>, c2: Seq<CacheEntry>, name: Seq<char>)
    requires
        c2.len() == c1.len() + 1,
        forall|i: int| 0 <= i < c1.len() ==> c2[i] == c1[i],
        cache_lookup(c1, name) is None,
        c2.last().name@ == name,
    ensures
        cache_lookup(c2, name) == Some(c2.last().handle as int),
    decreases c1.len(),
{
    crate::environment::lemma_cache_lookup(c1, name);
    if c1.len() == 0 {
        assert(c2[0] == c2.last());
    } else {
        assert(c2[0] == c1[0]);
        assert(c1[0].name@ != name);
        assert forall|i: int| 0 <= i < c1.skip(1).len() implies c2.skip(1)[i] == c1.skip(1)[i] by {
            assert(c2.skip(1)[i] == c2[i + 1]);
            assert(c1.skip(1)[i] == c1[i + 1]);
        }
        assert(cache_lookup(c1.skip(1), name) is None) by {
            crate::environment::lemma_cache_lookup(c1.skip(1), name);
            if cache_lookup(c1.skip(1), name) is Some {
                let w = choose|w: int|
                    0 <= w < c1.skip(1).len() && (#[trigger] c1.skip(1)[w]).name@ == name;
                assert(c1[w + 1] == c1.skip(1)[w]);
                assert(false);
            }
        }
        lemma_cache_lookup_extend(c1.skip(1), c2.skip(1), name);
        assert(c2.skip(1).last() == c2.last());
    }
}

/// Law: opening the same named database twice yields the same handle,
/// and the second open changes nothing — the handle cache is
/// consulted before the engine's non-reentrant open runs.  An
/// embedding that shares the environment across threads serializes
/// the two opens with the cache lock, and each then sees exactly this
/// behaviour.
pub proof fn lemma_open_twice_same_handle(
    e0: Environment,
    e1: Environment,
    e2: Environment,
    name: Seq<char>,
    flags1: u32,
    flags2: u32,
    force1: bool,
    force2: bool,
    h1: usize,
    r2: MdbResult<usize>,
)
    requires
        e0.wf(),
        open_db_post(e0, e1, name, flags1, force1, Ok(h1)),
        open_db_post(e1, e2, name, flags2, force2, r2),
    ensures
        r2 == Ok::<usize, crate::error::MdbError>(h1),
        e2 == e1,
{
    match cache_lookup(e0.cache@, name) {
        Some(h) => {
            assert(e1 == e0);
            assert(cache_lookup(e1.cache@, name) == Some(h1 as int));
        },
        None => {
            lemma_cache_lookup_extend(e0.cache@, e1.cache@, name);
            assert(cache_lookup(e1.cache@, name) == Some(h1 as int));
        },
    }
}

} // verus!

