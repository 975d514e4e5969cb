//! The environment: owner of every database table and of the
//! database-handle cache, and the factory for transactions.
//!
//! Opening a database by name goes through the cache: at most one
//! handle exists per name, a second open of the same name returns the
//! first handle unchanged.  The engine's "open database" primitive must
//! not run in concurrent transactions, which is why every lookup and
//! insertion stands in this one place — an embedding that shares an
//! environment across threads serializes calls into it with a
//! mutual-exclusion lock and maps a poisoned lock to `CacheError`.

use vstd::prelude::*;
use vstd::string::StringExecFns;

use crate::database::{Database, Stat, DB_ALLOW_DUPS, DB_CREATE};
use crate::error::{MdbError, MdbResult, EACCES};
use crate::store::{clone_stores, stores_wf, DbStore};
use crate::transaction::{
    NativeTransaction, ReadonlyTransaction, Transaction, TransactionState,
};

verus! {

/// Flag: open the environment read-only; it then refuses read-write
/// transactions and database creation.
pub const ENV_CREATE_READONLY: u32 = 0x20000;

/// Flag: do not flush system buffers to disk on commit.
pub const ENV_NO_SYNC: u32 = 0x10000;

/// Flag: flush system buffers once per transaction, skip the metadata
/// flush.
pub const ENV_NO_META_SYNC: u32 = 0x40000;

/// Flag: with a writeable map, flush asynchronously.
pub const ENV_MAP_ASYNC: u32 = 0x100000;

/// Flag: do not zero-initialize freshly allocated pages.
pub const ENV_NO_MEM_INIT: u32 = 0x1000000;

/// The flags that may still be changed after the environment is open.
pub const ENV_CHANGEABLE_FLAGS: u32 = 0x10000 | 0x40000 | 0x100000 | 0x1000000;

/// One entry of the handle cache: a database name bound to its handle.
pub struct CacheEntry {
    pub name: String,
    pub handle: usize,
}

/// The first handle cached under `name`, if any.
pub open spec fn cache_lookup(c: Seq<CacheEntry>, name: Seq<char>) -> Option<int>
    decreases c.len(),
{
    if c.len() == 0 {
        None
    } else if c[0].name@ == name {
        Some(c[0].handle as int)
    } else {
        cache_lookup(c.skip(1), name)
    }
}

/// The handle (index) of the database named `name`, if one exists.
pub open spec fn store_lookup(ss: Seq<DbStore>, name: Seq<char>) -> Option<int>
    decreases ss.len(),
{
    if ss.len() == 0 {
        None
    } else if ss[0].name@ == name {
        Some(0)
    } else {
        match store_lookup(ss.skip(1), name) {
            Some(h) => Some(h + 1),
            None => None,
        }
    }
}

/// A found cache entry really is a match, and `None` means no match.
pub proof fn lemma_cache_lookup(c: Seq<CacheEntry>, name: Seq<char>)
    ensures
        match cache_lookup(c, name) {
            Some(h) => exists|i: int| 0 <= i < c.len() && (#[trigger] c[i]).name@ == name
                && c[i].handle == h,
            None => forall|i: int| 0 <= i < c.len() ==> (#[trigger] c[i]).name@ != name,
        },
    decreases c.len(),
{
    if c.len() > 0 && c[0].name@ != name {
        lemma_cache_lookup(c.skip(1), name);
        match cache_lookup(c, name) {
            Some(h) => {
                let i = choose|i: int|
                    0 <= i < c.skip(1).len() && (#[trigger] c.skip(1)[i]).name@ == name && c.skip(
                        1,
                    )[i].handle == h;
                assert(c[i + 1] == c.skip(1)[i]);
            },
            None => {
                assert forall|i: int| 0 <= i < c.len() implies (#[trigger] c[i]).name@ != name by {
                    if i > 0 {
                        assert(c[i] == c.skip(1)[i - 1]);
                    }
                }
            },
        }
    }
}

/// A store lookup returns the unique index holding `name`, and `None`
/// means no table holds it.
pub proof fn lemma_store_lookup(ss: Seq<DbStore>, name: Seq<char>)
    ensures
        match store_lookup(ss, name) {
            Some(h) => 0 <= h < ss.len() && ss[h].name@ == name,
            None => forall|i: int| 0 <= i < ss.len() ==> (#[trigger] ss[i]).name@ != name,
        },
    decreases ss.len(),
{
    if ss.len() > 0 && ss[0].name@ != name {
        lemma_store_lookup(ss.skip(1), name);
        match store_lookup(ss.skip(1), name) {
            Some(h) => {
                assert(ss.skip(1)[h] == ss[h + 1]);
            },
            None => {
                assert forall|i: int| 0 <= i < ss.len() implies (#[trigger] ss[i]).name@ != name by {
                    if i > 0 {
                        assert(ss[i] == ss.skip(1)[i - 1]);
                    }
                }
            },
        }
    }
}

/// The environment.  It owns every database table and the handle
/// cache, and hands out transactions and database handles.
pub struct Environment {
    /// One table per database handle; handle 0 is the default
    /// (unnamed) database, which always exists.
    pub stores: Vec<DbStore>,
    /// The handle cache: at most one entry per database name.
    pub cache: Vec<CacheEntry>,
    /// Whether the environment was opened read-only.
    pub is_readonly: bool,
    /// The environment flags currently in force.
    pub flags: u32,
    /// The configured map size.
    pub map_size: u64,
    /// The configured maximum number of readers.
    pub max_readers: u32,
}

impl Environment {
    /// The environment's invariant: well-formed tables, unique
    /// database names with the default database at handle 0, and a
    /// cache whose every entry names the table its handle points to.
    pub open spec fn wf(self) -> bool {
        &&& self.stores@.len() >= 1
        &&& self.stores@[0].name@ == Seq::<char>::empty()
        &&& stores_wf(self.stores@)
        &&& forall|i: int, j: int|
            0 <= i < j < self.stores@.len() ==> (#[trigger] self.stores@[i]).name@
                != (#[trigger] self.stores@[j]).name@
        &&& forall|i: int|
            0 <= i < self.cache@.len() ==> (#[trigger] self.cache@[i]).handle
                < self.stores@.len() && self.cache@[i].name@
                == self.stores@[self.cache@[i].handle as int].name@
        &&& forall|i: int, j: int|
            0 <= i < j < self.cache@.len() ==> (#[trigger] self.cache@[i]).name@
                != (#[trigger] self.cache@[j]).name@
    }

    /// A builder for a fresh environment.
    pub fn new() -> (r: EnvBuilder)
        ensures
            r == EnvBuilder::default_spec(),
    {
        EnvBuilder::new()
    }

    /// Check the reader lock table for stale slots; the in-memory
    /// table has none.
    pub fn reader_check(&self) -> (r: MdbResult<i32>)
        ensures
            r == Ok::<i32, MdbError>(0),
    {
        Ok(0)
    }

    /// Flush to disk; the in-memory table has nothing pending, so this
    /// always succeeds.
    pub fn sync(&self, _force: bool) -> (r: MdbResult<()>)
        ensures
            r is Ok,
    {
        Ok(())
    }

    /// Grow (or shrink) the map size.  Only safe while no transaction
    /// is active, which the caller ensures.
    pub fn set_mapsize(&mut self, map_size: usize) -> (r: MdbResult<()>)
        ensures
            r is Ok,
            *final(self) == (Environment { map_size: map_size as u64, ..*old(self) }),
    {
        self.map_size = map_size as u64;
        Ok(())
    }

    /// Turn the changeable environment flags on or off.
    pub fn set_flags(&mut self, flags: u32, turn_on: bool) -> (r: MdbResult<()>)
        ensures
            r is Ok,
            *final(self) == (Environment {
                flags: if turn_on {
                    old(self).flags | (flags & ENV_CHANGEABLE_FLAGS)
                } else {
                    old(self).flags & !(flags & ENV_CHANGEABLE_FLAGS)
                },
                ..*old(self)
            }),
    {
        if turn_on {
            self.flags = self.flags | (flags & ENV_CHANGEABLE_FLAGS);
        } else {
            self.flags = self.flags & !(flags & ENV_CHANGEABLE_FLAGS);
        }
        Ok(())
    }

    /// The changeable flags currently in force.
    pub fn get_flags(&self) -> (r: MdbResult<u32>)
        ensures
            r == Ok::<u32, MdbError>(self.flags & ENV_CHANGEABLE_FLAGS),
    {
        Ok(self.flags & ENV_CHANGEABLE_FLAGS)
    }

    /// All flags in force, creation-time flags included.
    pub fn get_all_flags(&self) -> (r: MdbResult<u32>)
        ensures
            r == Ok::<u32, MdbError>(self.flags),
    {
        Ok(self.flags)
    }

    /// The configured maximum number of readers.
    pub fn get_maxreaders(&self) -> (r: MdbResult<u32>)
        ensures
            r == Ok::<u32, MdbError>(self.max_readers),
    {
        Ok(self.max_readers)
    }

    /// The longest key the engine accepts, in bytes.
    pub fn get_maxkeysize(&self) -> (r: i32)
        ensures
            r == 511,
    {
        511
    }

    /// Begin a read-write transaction: a working copy of every table.
    /// A read-only environment refuses with a `StateError`.
    pub fn new_transaction(&self) -> (r: MdbResult<Transaction>)
        requires
            self.wf(),
        ensures
            match r {
                Ok(txn) => {
                    &&& !self.is_readonly
                    &&& txn.inner.state is Normal
                    &&& !txn.inner.readonly
                    &&& txn.inner.wf()
                    &&& crate::store::same_stores(txn.inner.work@, self.stores@)
                },
                Err(e) => self.is_readonly && e is StateError,
            },
    {
        if self.is_readonly {
            return Err(MdbError::StateError(String::from_str(
                "cannot begin a read-write transaction in a read-only environment",
            )));
        }
        Ok(Transaction::new_with_native(NativeTransaction {
            work: clone_stores(&self.stores),
            state: TransactionState::Normal,
            readonly: false,
        }))
    }

    /// Begin a read-only transaction: a frozen snapshot, cheap for the
    /// engine and always available.
    pub fn get_reader(&self) -> (r: MdbResult<ReadonlyTransaction>)
        requires
            self.wf(),
        ensures
            match r {
                Ok(txn) => {
                    &&& txn.inner.state is Normal
                    &&& txn.inner.readonly
                    &&& txn.inner.wf()
                    &&& crate::store::same_stores(txn.inner.work@, self.stores@)
                },
                Err(_) => false,
            },
    {
        Ok(ReadonlyTransaction::new_with_native(NativeTransaction {
            work: clone_stores(&self.stores),
            state: TransactionState::Normal,
            readonly: true,
        }))
    }
}

/// The cache index of the first entry bound to `handle`, if any.
pub open spec fn cache_find_handle(c: Seq<CacheEntry>, handle: usize) -> Option<int>
    decreases c.len(),
{
    if c.len() == 0 {
        None
    } else if c[0].handle == handle {
        Some(0)
    } else {
        match cache_find_handle(c.skip(1), handle) {
            Some(i) => Some(i + 1),
            None => None,
        }
    }
}

/// A found index really is the first match, and `None` means no match.
pub proof fn lemma_cache_find_handle(c: Seq<CacheEntry>, handle: usize)
    ensures
        match cache_find_handle(c, handle) {
            Some(i) => 0 <= i < c.len() && c[i].handle == handle,
            None => forall|i: int| 0 <= i < c.len() ==> (#[trigger] c[i]).handle != handle,
        },
    decreases c.len(),
{
    if c.len() > 0 && c[0].handle != handle {
        lemma_cache_find_handle(c.skip(1), handle);
        match cache_find_handle(c.skip(1), handle) {
            Some(i) => {
                assert(c.skip(1)[i] == c[i + 1]);
            },
            None => {
                assert forall|i: int| 0 <= i < c.len() implies (#[trigger] c[i]).handle
                    != handle by {
                    if i > 0 {
                        assert(c[i] == c.skip(1)[i - 1]);
                    }
                }
            },
        }
    }
}

/// What opening a database by name does to the environment: a cached
/// name returns its handle and changes nothing; a known but uncached
/// name is cached; an unknown name fails `NotFound`, or is created when
/// asked for — never in a read-only environment, whose engine refuses
/// the write.
pub open spec fn open_db_post(
    pre: Environment,
    post: Environment,
    name: Seq<char>,
    flags: u32,
    force: bool,
    r: MdbResult<usize>,
) -> bool {
    match cache_lookup(pre.cache@, name) {
        Some(h) => (r matches Ok(x) && x == h) && post == pre,
        None => match store_lookup(pre.stores@, name) {
            Some(h) => {
                &&& (r matches Ok(x) && x == h)
                &&& post.stores@.len() == pre.stores@.len()
                &&& forall|i: int|
                    0 <= i < pre.stores@.len() && i != h ==> post.stores@[i] == pre.stores@[i]
                &&& ({
                    let s = pre.stores@[h];
                    if s.contents().len() == 0 {
                        post.stores@[h] == (DbStore {
                            flags,
                            dup_allowed: flags & DB_ALLOW_DUPS != 0,
                            ..s
                        })
                    } else {
                        post.stores@[h] == s
                    }
                })
                &&& post.cache@.len() == pre.cache@.len() + 1
                &&& forall|i: int| 0 <= i < pre.cache@.len() ==> post.cache@[i] == pre.cache@[i]
                &&& post.cache@.last().name@ == name
                &&& post.cache@.last().handle == h
                &&& post.is_readonly == pre.is_readonly
                &&& post.flags == pre.flags
            },
            None => {
                if !force {
                    (r matches Err(e) && e == MdbError::NotFound) && post == pre
                } else if pre.is_readonly {
                    (r matches Err(e) && e matches MdbError::Other(c, _) && c == EACCES) && post
                        == pre
                } else {
                    &&& (r matches Ok(x) && x == pre.stores@.len())
                    &&& post.stores@.len() == pre.stores@.len() + 1
                    &&& forall|i: int|
                        0 <= i < pre.stores@.len() ==> post.stores@[i] == pre.stores@[i]
                    &&& post.stores@.last().name@ == name
                    &&& post.stores@.last().flags == flags
                    &&& post.stores@.last().dup_allowed == (flags & DB_ALLOW_DUPS != 0)
                    &&& post.stores@.last().contents() == Seq::<(Seq<u8>, Seq<Seq<u8>>)>::empty()
                    &&& post.cache@.len() == pre.cache@.len() + 1
                    &&& forall|i: int| 0 <= i < pre.cache@.len() ==> post.cache@[i] == pre.cache@[i]
                    &&& post.cache@.last().name@ == name
                    &&& post.cache@.last().handle == pre.stores@.len()
                    &&& post.is_readonly == pre.is_readonly
                    &&& post.flags == pre.flags
                }
            },
        },
    }
}

impl Environment {
    /// Look up or open the database named `db_name`, consulting and
    /// filling the handle cache.  The engine's open-database primitive
    /// must not run concurrently; an embedding holds the cache lock
    /// across this whole call.
    fn open_db_raw(&mut self, db_name: &str, flags: u32, force: bool) -> (r: MdbResult<usize>)
        requires
            old(self).wf(),
        ensures
            final(self).wf(),
            open_db_post(*old(self), *final(self), db_name@, flags, force, r),
    {
        let name_s = String::from_str(db_name);
        // First: the cache.
        let mut i: usize = 0;
        while i < self.cache.len()
            invariant
                *self == *old(self),
                self.wf(),
                i <= self.cache@.len(),
                name_s@ == db_name@,
                forall|j: int| 0 <= j < i ==> (#[trigger] self.cache@[j]).name@ != db_name@,
            decreases self.cache@.len() - i,
        {
            if self.cache[i].name == name_s {
                proof {
                    let c = self.cache@;
                    lemma_cache_lookup(c, db_name@);
                    match cache_lookup(c, db_name@) {
                        Some(h) => {
                            let w = choose|w: int|
                                0 <= w < c.len() && (#[trigger] c[w]).name@ == db_name@
                                    && c[w].handle == h;
                            assert(w == i) by {
                                if w < i {
                                    assert(c[w].name@ != db_name@);
                                }
                                if w > i {
                                    assert(c[i as int].name@ != c[w].name@);
                                }
                            }
                        },
                        None => {
                            assert(self.cache@[i as int].name@ != db_name@);
                        },
                    }
                }
                return Ok(self.cache[i].handle);
            }
            i = i + 1;
        }
        proof {
            lemma_cache_lookup(self.cache@, db_name@);
            if cache_lookup(self.cache@, db_name@) is Some {
                let w = choose|w: int|
                    0 <= w < self.cache@.len() && (#[trigger] self.cache@[w]).name@ == db_name@
                        && self.cache@[w].handle == cache_lookup(
                        self.cache@,
                        db_name@,
                    ).unwrap();
                assert(false);
            }
        }
        // Not cached: the tables themselves.
        let ghost pre_scan = *self;
        let mut s: usize = 0;
        let mut found = false;
        while s < self.stores.len() && !found
            invariant
                *self == pre_scan,
                self.wf(),
                cache_lookup(self.cache@, db_name@) is None,
                forall|j: int| 0 <= j < self.cache@.len() ==> (#[trigger] self.cache@[j]).name@
                    != db_name@,
                s <= self.stores@.len(),
                name_s@ == db_name@,
                !found ==> forall|j: int| 0 <= j < s ==> (#[trigger] self.stores@[j]).name@
                    != db_name@,
                found ==> s < self.stores@.len() && self.stores@[s as int].name@ == db_name@,
            decreases self.stores@.len() - s + (if found { 0int } else { 1int }),
        {
            if self.stores[s].name == name_s {
                found = true;
            } else {
                s = s + 1;
            }
        }
        if found {
            proof {
                lemma_store_lookup(self.stores@, db_name@);
                match store_lookup(self.stores@, db_name@) {
                    Some(h) => {
                        assert(h == s) by {
                            if h < s {
                                assert(self.stores@[h].name@ != db_name@);
                            }
                            if h > s {
                                assert(self.stores@[s as int].name@ != self.stores@[h].name@);
                            }
                        }
                    },
                    None => {
                        assert(self.stores@[s as int].name@ != db_name@);
                    },
                }
            }
            // The engine fixes a database's behaviour flags at its
            // first open: an empty table takes the requested flags.
            if self.stores[s].num_entries() == 0 {
                let ghost pre_stores = self.stores@;
                let mut st = self.stores.remove(s);
                st.flags = flags;
                st.dup_allowed = flags & DB_ALLOW_DUPS != 0;
                self.stores.insert(s, st);
                proof {
                    assert(self.stores@ =~= pre_stores.update(
                        s as int,
                        self.stores@[s as int],
                    ));
                }
            }
            self.cache.push(CacheEntry { name: name_s, handle: s });
            return Ok(s);
        }
        proof {
            lemma_store_lookup(self.stores@, db_name@);
            if store_lookup(self.stores@, db_name@) is Some {
                let h = store_lookup(self.stores@, db_name@).unwrap();
                assert(self.stores@[h].name@ != db_name@);
                assert(false);
            }
        }
        if !force {
            return Err(MdbError::NotFound);
        }
        if self.is_readonly {
            return Err(MdbError::new_with_code(EACCES));
        }
        let h = self.stores.len();
        let store = DbStore::new_store(name_s.clone(), flags, flags & DB_ALLOW_DUPS != 0);
        self.stores.push(store);
        self.cache.push(CacheEntry { name: name_s, handle: h });
        proof {
            assert forall|i: int, j: int| 0 <= i < j < self.stores@.len() implies (
            #[trigger] self.stores@[i]).name@ != (#[trigger] self.stores@[j]).name@ by {
                if j == self.stores@.len() - 1 {
                    assert(self.stores@[i].name@ != db_name@);
                }
            }
        }
        Ok(h)
    }

    /// Open an existing database; a missing name fails `NotFound`.
    pub fn get_db(&mut self, db_name: &str, flags: u32) -> (r: MdbResult<Database>)
        requires
            old(self).wf(),
        ensures
            final(self).wf(),
            match r {
                Ok(db) => open_db_post(
                    *old(self),
                    *final(self),
                    db_name@,
                    flags & !DB_CREATE,
                    false,
                    Ok(db.handle),
                ),
                Err(e) => open_db_post(
                    *old(self),
                    *final(self),
                    db_name@,
                    flags & !DB_CREATE,
                    false,
                    Err(e),
                ),
            },
    {
        let h = match self.open_db_raw(db_name, flags & !DB_CREATE, false) {
            Ok(h) => h,
            Err(e) => {
                return Err(e);
            },
        };
        Ok(Database::new_with_handle(h))
    }

    /// Open a database, creating it when the name is new.
    pub fn create_db(&mut self, db_name: &str, flags: u32) -> (r: MdbResult<Database>)
        requires
            old(self).wf(),
        ensures
            final(self).wf(),
            match r {
                Ok(db) => open_db_post(
                    *old(self),
                    *final(self),
                    db_name@,
                    flags | DB_CREATE,
                    true,
                    Ok(db.handle),
                ),
                Err(e) => open_db_post(
                    *old(self),
                    *final(self),
                    db_name@,
                    flags | DB_CREATE,
                    true,
                    Err(e),
                ),
            },
    {
        let h = match self.open_db_raw(db_name, flags | DB_CREATE, true) {
            Ok(h) => h,
            Err(e) => {
                return Err(e);
            },
        };
        Ok(Database::new_with_handle(h))
    }

    /// Open the default (unnamed) database.
    pub fn get_default_db(&mut self, flags: u32) -> (r: MdbResult<Database>)
        requires
            old(self).wf(),
        ensures
            final(self).wf(),
            match r {
                Ok(db) => open_db_post(
                    *old(self),
                    *final(self),
                    Seq::<char>::empty(),
                    flags & !DB_CREATE,
                    false,
                    Ok(db.handle),
                ),
                Err(e) => open_db_post(
                    *old(self),
                    *final(self),
                    Seq::<char>::empty(),
                    flags & !DB_CREATE,
                    false,
                    Err(e),
                ),
            },
    {
        proof {
            reveal_strlit("");
            assert(""@ =~= Seq::<char>::empty());
        }
        self.get_db("", flags)
    }

    /// Forget the cache entry of a dropped database handle, so that a
    /// later open sees the engine's state afresh.
    pub fn drop_db_from_cache(&mut self, handle: usize)
        requires
            old(self).wf(),
        ensures
            final(self).wf(),
            match cache_find_handle(old(self).cache@, handle) {
                Some(i) => *final(self) == (Environment {
                    cache: final(self).cache,
                    ..*old(self)
                }) && final(self).cache@ == old(self).cache@.remove(i),
                None => *final(self) == *old(self),
            },
    {
        let mut i: usize = 0;
        while i < self.cache.len()
            invariant
                *self == *old(self),
                self.wf(),
                i <= self.cache@.len(),
                forall|j: int| 0 <= j < i ==> (#[trigger] self.cache@[j]).handle != handle,
            decreases self.cache@.len() - i,
        {
            if self.cache[i].handle == handle {
                proof {
                    lemma_cache_find_handle(self.cache@, handle);
                    match cache_find_handle(self.cache@, handle) {
                        Some(w) => {
                            assert(!(w < i));
                            if w > i {
                                assert(self.cache@[w].name@
                                    == self.stores@[self.cache@[w].handle as int].name@);
                                assert(self.cache@[i as int].name@
                                    == self.stores@[self.cache@[i as int].handle as int].name@);
                                assert(self.cache@[i as int].name@ != self.cache@[w].name@);
                                assert(false);
                            }
                        },
                        None => {
                            assert(self.cache@[i as int].handle != handle);
                        },
                    }
                }
                self.cache.remove(i);
                return ;
            }
            i = i + 1;
        }
        proof {
            lemma_cache_find_handle(self.cache@, handle);
            if cache_find_handle(self.cache@, handle) is Some {
                let w = cache_find_handle(self.cache@, handle).unwrap();
                assert(self.cache@[w].handle != handle);
                assert(false);
            }
        }
    }

    /// Environment statistics: the entries of the default database
    /// plus one record per named database, as the engine keeps them.
    pub fn stat(&self) -> (r: MdbResult<Stat>)
        requires
            self.wf(),
        ensures
            match r {
                Ok(st) => ({
                    let total = self.stores@[0].contents().len() + self.stores@.len() - 1;
                    st.entries as int == if total <= usize::MAX {
                        total as int
                    } else {
                        usize::MAX as int
                    }
                }),
                Err(_) => false,
            },
    {
        let main = self.stores[0].num_entries();
        let named = self.stores.len() - 1;
        let total = if main <= usize::MAX - named {
            main + named
        } else {
            usize::MAX
        };
        Ok(Stat { entries: total })
    }
}

/// Builds an environment, fixing the settings that cannot change after
/// opening.  By default the layer's embedding creates the directory if
/// it is missing; `autocreate_dir` turns that off.
#[derive(Clone, Debug)]
pub struct EnvBuilder {
    pub flags: u32,
    pub max_readers: Option<usize>,
    pub max_dbs: Option<usize>,
    pub map_size: Option<u64>,
    pub autocreate_dir: bool,
}

impl EnvBuilder {
    /// What `EnvBuilder::new` returns.
    pub open spec fn default_spec() -> EnvBuilder {
        EnvBuilder {
            flags: 0,
            max_readers: None,
            max_dbs: None,
            map_size: None,
            autocreate_dir: true,
        }
    }

    pub fn new() -> (r: EnvBuilder)
        ensures
            r == EnvBuilder::default_spec(),
    {
        EnvBuilder { flags: 0, max_readers: None, max_dbs: None, map_size: None, autocreate_dir: true }
    }

    /// Sets the environment flags.
    pub fn flags(self, flags: u32) -> (r: EnvBuilder)
        ensures
            r == (EnvBuilder { flags, ..self }),
    {
        EnvBuilder { flags, ..self }
    }

    /// Sets the maximum number of concurrent readers.
    pub fn max_readers(self, max_readers: usize) -> (r: EnvBuilder)
        ensures
            r == (EnvBuilder { max_readers: Some(max_readers), ..self }),
    {
        EnvBuilder { max_readers: Some(max_readers), ..self }
    }

    /// Sets the maximum number of named databases.
    pub fn max_dbs(self, max_dbs: usize) -> (r: EnvBuilder)
        ensures
            r == (EnvBuilder { max_dbs: Some(max_dbs), ..self }),
    {
        EnvBuilder { max_dbs: Some(max_dbs), ..self }
    }

    /// Sets the maximum environment size, i.e. the size in memory or
    /// on disk of all data.
    pub fn map_size(self, map_size: u64) -> (r: EnvBuilder)
        ensures
            r == (EnvBuilder { map_size: Some(map_size), ..self }),
    {
        EnvBuilder { map_size: Some(map_size), ..self }
    }

    /// Sets whether opening should create the directory with default
    /// permissions when it is missing (default: yes).
    pub fn autocreate_dir(self, autocreate_dir: bool) -> (r: EnvBuilder)
        ensures
            r == (EnvBuilder { autocreate_dir, ..self }),
    {
        EnvBuilder { autocreate_dir, ..self }
    }

    /// Open the environment.  The path and the permission bits concern
    /// only the on-disk embedding, which validates them before the
    /// tables here come to life; the in-memory environment starts with
    /// the default database, empty.
    pub fn open(self, _path: &str, _perms: u32) -> (r: MdbResult<Environment>)
        ensures
            match r {
                Ok(env) => {
                    &&& env.wf()
                    &&& env.is_readonly == (self.flags & ENV_CREATE_READONLY != 0)
                    &&& env.flags == self.flags
                    &&& env.stores@.len() == 1
                    &&& env.stores@[0].contents() == Seq::<(Seq<u8>, Seq<Seq<u8>>)>::empty()
                    &&& env.cache@.len() == 0
                    &&& (self.map_size matches Some(m) ==> env.map_size == m)
                    &&& (self.max_readers matches Some(m) ==> env.max_readers == m as u32)
                },
                Err(_) => false,
            },
    {
        let default_db = DbStore::new_store(String::new(), 0, false);
        let mut stores: Vec<DbStore> = Vec::new();
        stores.push(default_db);
        let env = Environment {
            stores,
            cache: Vec::new(),
            is_readonly: self.flags & ENV_CREATE_READONLY != 0,
            flags: self.flags,
            map_size: match self.map_size {
                Some(m) => m,
                None => 1048576,
            },
            max_readers: match self.max_readers {
                Some(m) => m as u32,
                None => 126,
            },
        };
        Ok(env)
    }
}

} // verus!
