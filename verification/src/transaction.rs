//! A transaction: a buffered view of the database that absorbs puts and
//! deletes, carries a stack of savepoints with last-in-first-out rollback,
//! and applies atomically on commit.

use vstd::prelude::*;

use crate::store::{cf_iter_post, default_cf, dedup_first, lookup_of, ColumnFamily, KvStore};
use crate::iterator::IterMode;
use crate::StorageError;

verus! {

/// The mapping after the puts of `puts` are applied in order, later puts
/// winning on equal keys.
pub open spec fn apply_puts(m: Map<Seq<u8>, Seq<u8>>, puts: Seq<(Seq<u8>, Seq<u8>)>) -> Map<
    Seq<u8>,
    Seq<u8>,
>
    decreases puts.len(),
{
    if puts.len() == 0 {
        m
    } else {
        apply_puts(m, puts.drop_last()).insert(puts.last().0, puts.last().1)
    }
}

/// The mapping after the keys of `dels` are removed.
pub open spec fn apply_dels(m: Map<Seq<u8>, Seq<u8>>, dels: Seq<Seq<u8>>) -> Map<Seq<u8>, Seq<u8>>
    decreases dels.len(),
{
    if dels.len() == 0 {
        m
    } else {
        apply_dels(m, dels.drop_last()).remove(dels.last())
    }
}

/// One update call: all puts in order, then all deletes in order.  A key
/// named in both lists ends up deleted.
pub open spec fn apply_update(
    m: Map<Seq<u8>, Seq<u8>>,
    puts: Seq<(Seq<u8>, Seq<u8>)>,
    dels: Seq<Seq<u8>>,
) -> Map<Seq<u8>, Seq<u8>> {
    apply_dels(apply_puts(m, puts), dels)
}

/// Each element of a vector of key-value pairs, seen as byte strings.
proof fn lemma_pairs_deep(v: Vec<(Vec<u8>, Vec<u8>)>)
    ensures
        v.deep_view().len() == v@.len(),
        forall|j: int|
            0 <= j < v@.len() ==> #[trigger] v.deep_view()[j] == (v@[j].0@, v@[j].1@),
{
    assert forall|j: int| 0 <= j < v@.len() implies #[trigger] v.deep_view()[j] == (
        v@[j].0@,
        v@[j].1@,
    ) by {
        assert(v@[j].0.deep_view() =~= v@[j].0@);
        assert(v@[j].1.deep_view() =~= v@[j].1@);
    }
}

/// Each element of a vector of keys, seen as a byte string.
proof fn lemma_keys_deep(v: Vec<Vec<u8>>)
    ensures
        v.deep_view().len() == v@.len(),
        forall|j: int| 0 <= j < v@.len() ==> #[trigger] v.deep_view()[j] == v@[j]@,
{
    assert forall|j: int| 0 <= j < v@.len() implies #[trigger] v.deep_view()[j] == v@[j]@ by {
        assert(v@[j].deep_view() =~= v@[j]@);
    }
}

/// A transaction over a database: the state it read at begin, the buffered
/// state its writes have produced, and the savepoint stack.
#[derive(Debug)]
pub struct Transaction {
    base: KvStore,
    current: KvStore,
    savepoints: Vec<KvStore>,
    committed: bool,
}

impl Transaction {
    /// The buffered state: what this transaction's reads observe.
    pub closed spec fn view_map(self) -> Map<Seq<char>, Map<Seq<u8>, Seq<u8>>> {
        self.current.as_map()
    }

    /// The state the transaction began from, restored by a full rollback.
    pub closed spec fn base_map(self) -> Map<Seq<char>, Map<Seq<u8>, Seq<u8>>> {
        self.base.as_map()
    }

    /// The savepoint stack, oldest first.
    pub closed spec fn saves(self) -> Seq<Map<Seq<char>, Map<Seq<u8>, Seq<u8>>>> {
        Seq::new(self.savepoints@.len(), |i: int| self.savepoints@[i].as_map())
    }

    /// Whether the transaction has been committed.
    pub closed spec fn committed(self) -> bool {
        self.committed
    }

    /// The held states are well formed.
    pub closed spec fn wf(self) -> bool {
        &&& self.base.wf()
        &&& self.current.wf()
        &&& forall|i: int| 0 <= i < self.savepoints@.len() ==> (#[trigger] self.savepoints@[i]).wf()
    }

    /// A transaction reading from — and buffering writes over — the given
    /// database state.
    pub fn new(db: &KvStore) -> (r: Transaction)
        requires
            db.wf(),
        ensures
            r.wf(),
            r.view_map() == db.as_map(),
            r.base_map() == db.as_map(),
            r.saves() == Seq::<Map<Seq<char>, Map<Seq<u8>, Seq<u8>>>>::empty(),
            !r.committed(),
    {
        let r = Transaction {
            base: db.duplicate(),
            current: db.duplicate(),
            savepoints: Vec::new(),
            committed: false,
        };
        proof {
            assert(r.saves() =~= Seq::<Map<Seq<char>, Map<Seq<u8>, Seq<u8>>>>::empty());
        }
        r
    }

    /// Applies `to_update` (puts, in order) then `to_delete` (deletes, in
    /// order) to the column family `cf` of the buffered state.  Fails with
    /// `FailedPrecondition` after commit and with `NotFound` when the handle
    /// matches no column family; a failing call changes nothing.
    pub fn update_cf(
        &mut self,
        cf: &ColumnFamily,
        to_update: &Vec<(Vec<u8>, Vec<u8>)>,
        to_delete: &Vec<Vec<u8>>,
    ) -> (r: Result<(), StorageError>)
        requires
            old(self).wf(),
        ensures
            final(self).wf(),
            final(self).base_map() == old(self).base_map(),
            final(self).saves() == old(self).saves(),
            final(self).committed() == old(self).committed(),
            r is Ok <==> !old(self).committed() && old(self).view_map().dom().contains(
                cf.name_view(),
            ),
            r is Err ==> final(self).view_map() == old(self).view_map() && r.unwrap_err() == (
            if old(self).committed() {
                StorageError::FailedPrecondition
            } else {
                StorageError::NotFound
            }),
            r is Ok ==> final(self).view_map() == old(self).view_map().insert(
                cf.name_view(),
                apply_update(
                    old(self).view_map()[cf.name_view()],
                    to_update.deep_view(),
                    to_delete.deep_view(),
                ),
            ),
    {
        if self.committed {
            return Err(StorageError::FailedPrecondition);
        }
        if !self.current.has_column_family(cf) {
            return Err(StorageError::NotFound);
        }
        proof {
            lemma_pairs_deep(*to_update);
            lemma_keys_deep(*to_delete);
        }
        let ghost m0 = old(self).view_map();
        let ghost cfn = cf.name_view();
        let ghost puts = to_update.deep_view();
        let ghost dels = to_delete.deep_view();
        proof {
            assert(puts.subrange(0, 0) =~= Seq::<(Seq<u8>, Seq<u8>)>::empty());
            assert(m0.insert(cfn, apply_puts(m0[cfn], puts.subrange(0, 0))) =~= m0);
        }
        let mut i: usize = 0;
        let n = to_update.len();
        while i < n
            invariant
                self.wf(),
                !self.committed,
                n == to_update@.len(),
                puts.len() == to_update@.len(),
                dels.len() == to_delete@.len(),
                forall|j: int|
                    0 <= j < to_update@.len() ==> #[trigger] puts[j] == (
                        to_update@[j].0@,
                        to_update@[j].1@,
                    ),
                0 <= i <= n,
                self.base == old(self).base,
                self.savepoints == old(self).savepoints,
                self.committed == old(self).committed,
                m0 == old(self).view_map(),
                cfn == cf.name_view(),
                puts == to_update.deep_view(),
                dels == to_delete.deep_view(),
                m0.dom().contains(cfn),
                self.view_map() == m0.insert(cfn, apply_puts(m0[cfn], puts.subrange(0, i as int))),
            decreases n - i,
        {
            let key = crate::bytes::dup_bytes(&to_update[i].0);
            let value = crate::bytes::dup_bytes(&to_update[i].1);
            let ghost pre = self.view_map();
            let res = self.current.put_cf(cf, key, value);
            proof {
                assert(pre.dom().contains(cfn)) by {
                    assert(pre == m0.insert(cfn, apply_puts(m0[cfn], puts.subrange(0, i as int))));
                }
            }
            if let Err(e) = res {
                return Err(e);
            }
            proof {
                let prefix = puts.subrange(0, i as int);
                let prefix1 = puts.subrange(0, i + 1);
                assert(prefix1.drop_last() =~= prefix);
                assert(prefix1.last() == (to_update@[i as int].0@, to_update@[i as int].1@));
                assert(self.view_map() == pre.insert(cfn, pre[cfn].insert(key@, value@)));
                assert(pre[cfn] == apply_puts(m0[cfn], prefix));
                assert(self.view_map() =~= m0.insert(cfn, apply_puts(m0[cfn], prefix1)));
            }
            i = i + 1;
        }
        proof {
            assert(puts.subrange(0, puts.len() as int) =~= puts);
            assert(dels.subrange(0, 0) =~= Seq::<Seq<u8>>::empty());
        }
        let mut j: usize = 0;
        let d = to_delete.len();
        while j < d
            invariant
                self.wf(),
                !self.committed,
                d == to_delete@.len(),
                dels.len() == to_delete@.len(),
                forall|l: int| 0 <= l < to_delete@.len() ==> #[trigger] dels[l] == to_delete@[l]@,
                0 <= j <= d,
                self.base == old(self).base,
                self.savepoints == old(self).savepoints,
                self.committed == old(self).committed,
                m0 == old(self).view_map(),
                cfn == cf.name_view(),
                puts == to_update.deep_view(),
                dels == to_delete.deep_view(),
                m0.dom().contains(cfn),
                self.view_map() == m0.insert(
                    cfn,
                    apply_dels(apply_puts(m0[cfn], puts), dels.subrange(0, j as int)),
                ),
            decreases d - j,
        {
            let key = crate::bytes::dup_bytes(&to_delete[j]);
            let ghost pre = self.view_map();
            let res = self.current.delete_cf(cf, &key);
            proof {
                assert(pre.dom().contains(cfn)) by {
                    assert(pre == m0.insert(
                        cfn,
                        apply_dels(apply_puts(m0[cfn], puts), dels.subrange(0, j as int)),
                    ));
                }
            }
            if let Err(e) = res {
                return Err(e);
            }
            proof {
                let prefix = dels.subrange(0, j as int);
                let prefix1 = dels.subrange(0, j + 1);
                assert(prefix1.drop_last() =~= prefix);
                assert(prefix1.last() == to_delete@[j as int]@);
                assert(self.view_map() == pre.insert(cfn, pre[cfn].remove(key@)));
                assert(pre[cfn] == apply_dels(apply_puts(m0[cfn], puts), prefix));
                assert(self.view_map() =~= m0.insert(
                    cfn,
                    apply_dels(apply_puts(m0[cfn], puts), prefix1),
                ));
            }
            j = j + 1;
        }
        proof {
            assert(dels.subrange(0, dels.len() as int) =~= dels);
        }
        Ok(())
    }

    /// Applies `to_update` then `to_delete` to the `default` column family.
    pub fn update(
        &mut self,
        to_update: &Vec<(Vec<u8>, Vec<u8>)>,
        to_delete: &Vec<Vec<u8>>,
    ) -> (r: Result<(), StorageError>)
        requires
            old(self).wf(),
        ensures
            final(self).wf(),
            final(self).base_map() == old(self).base_map(),
            final(self).saves() == old(self).saves(),
            final(self).committed() == old(self).committed(),
            r is Ok <==> !old(self).committed(),
            r is Err ==> final(self).view_map() == old(self).view_map() && r.unwrap_err()
                == StorageError::FailedPrecondition,
            r is Ok ==> final(self).view_map() == old(self).view_map().insert(
                default_cf(),
                apply_update(
                    old(self).view_map()[default_cf()],
                    to_update.deep_view(),
                    to_delete.deep_view(),
                ),
            ),
    {
        proof {
            self.current.lemma_view_facts();
        }
        match self.current.get_column_family("default") {
            Some(cf) => self.update_cf(&cf, to_update, to_delete),
            None => Err(StorageError::FailedPrecondition),
        }
    }

    /// Pushes a savepoint holding the buffered state as it stands.
    pub fn save(&mut self) -> (r: Result<(), StorageError>)
        requires
            old(self).wf(),
        ensures
            r is Ok,
            final(self).wf(),
            final(self).view_map() == old(self).view_map(),
            final(self).base_map() == old(self).base_map(),
            final(self).committed() == old(self).committed(),
            final(self).saves() == old(self).saves().push(old(self).view_map()),
    {
        let snap = self.current.duplicate();
        self.savepoints.push(snap);
        proof {
            assert(self.saves() =~= old(self).saves().push(old(self).view_map()));
        }
        Ok(())
    }

    /// Pops the most recent savepoint and restores the buffered state to it.
    /// Fails with `FailedPrecondition` when the stack is empty or the
    /// transaction is committed; a failing call changes nothing.
    pub fn rollback_to_savepoint(&mut self) -> (r: Result<(), StorageError>)
        requires
            old(self).wf(),
        ensures
            final(self).wf(),
            final(self).base_map() == old(self).base_map(),
            final(self).committed() == old(self).committed(),
            r is Ok <==> !old(self).committed() && old(self).saves().len() > 0,
            r is Err ==> final(self).view_map() == old(self).view_map() && final(self).saves()
                == old(self).saves() && r.unwrap_err() == StorageError::FailedPrecondition,
            r is Ok ==> final(self).view_map() == old(self).saves().last() && final(self).saves()
                == old(self).saves().drop_last(),
    {
        if self.committed {
            return Err(StorageError::FailedPrecondition);
        }
        match self.savepoints.pop() {
            Some(s) => {
                self.current = s;
                proof {
                    assert(self.saves() =~= old(self).saves().drop_last());
                }
                Ok(())
            },
            None => Err(StorageError::FailedPrecondition),
        }
    }

    /// Discards all buffered writes, restoring the state the transaction
    /// began from, and empties the savepoint stack.  Fails with
    /// `FailedPrecondition` after commit.
    pub fn rollback(&mut self) -> (r: Result<(), StorageError>)
        requires
            old(self).wf(),
        ensures
            final(self).wf(),
            final(self).base_map() == old(self).base_map(),
            final(self).committed() == old(self).committed(),
            r is Ok <==> !old(self).committed(),
            r is Err ==> final(self).view_map() == old(self).view_map() && final(self).saves()
                == old(self).saves() && r.unwrap_err() == StorageError::FailedPrecondition,
            r is Ok ==> final(self).view_map() == old(self).base_map() && final(self).saves()
                == Seq::<Map<Seq<char>, Map<Seq<u8>, Seq<u8>>>>::empty(),
    {
        if self.committed {
            return Err(StorageError::FailedPrecondition);
        }
        self.current = self.base.duplicate();
        self.savepoints.clear();
        proof {
            assert(self.saves() =~= Seq::<Map<Seq<char>, Map<Seq<u8>, Seq<u8>>>>::empty());
        }
        Ok(())
    }

    /// Atomically applies the buffered state to the storage's live database
    /// and finalizes the transaction: commit and rollback fail afterwards.
    /// Fails with `FailedPrecondition` when already committed; a failing
    /// call changes nothing.
    pub fn commit(&mut self, storage: &mut crate::storage::Storage) -> (r: Result<
        (),
        StorageError,
    >)
        requires
            old(self).wf(),
            old(storage).wf(),
        ensures
            final(self).wf(),
            final(storage).wf(),
            final(self).base_map() == old(self).base_map(),
            r is Ok <==> !old(self).committed(),
            r is Err ==> final(self).view_map() == old(self).view_map() && final(self).saves()
                == old(self).saves() && final(self).committed() == old(self).committed()
                && final(storage).view_map() == old(storage).view_map() && r.unwrap_err()
                == StorageError::FailedPrecondition,
            r is Ok ==> final(storage).view_map() == old(self).view_map() && final(self).committed()
                && final(self).view_map() == old(self).view_map() && final(self).saves() == Seq::<
                Map<Seq<char>, Map<Seq<u8>, Seq<u8>>>,
            >::empty(),
    {
        if self.committed {
            return Err(StorageError::FailedPrecondition);
        }
        storage.install(self.current.duplicate());
        self.committed = true;
        self.savepoints.clear();
        proof {
            assert(self.saves() =~= Seq::<Map<Seq<char>, Map<Seq<u8>, Seq<u8>>>>::empty());
        }
        Ok(())
    }

    /// A copy of the buffered state.
    pub(crate) fn state(&self) -> (r: KvStore)
        requires
            self.wf(),
        ensures
            r.wf(),
            r.as_map() == self.view_map(),
    {
        self.current.duplicate()
    }

    /// Finalizes the transaction after its state has been applied: commits
    /// and rollbacks fail from here on, and the savepoint stack is emptied.
    pub(crate) fn finalize(&mut self)
        requires
            old(self).wf(),
        ensures
            final(self).wf(),
            final(self).view_map() == old(self).view_map(),
            final(self).base_map() == old(self).base_map(),
            final(self).committed(),
            final(self).saves() == Seq::<Map<Seq<char>, Map<Seq<u8>, Seq<u8>>>>::empty(),
    {
        self.committed = true;
        self.savepoints.clear();
        proof {
            assert(self.saves() =~= Seq::<Map<Seq<char>, Map<Seq<u8>, Seq<u8>>>>::empty());
        }
    }

    /// Whether the transaction has been committed.
    pub(crate) fn is_finalized(&self) -> (r: bool)
        ensures
            r == self.committed(),
    {
        self.committed
    }

    /// A handle for the named column family of the buffered state.
    pub(crate) fn lookup_column_family(&self, cf_name: &str) -> (r: Option<ColumnFamily>)
        requires
            self.wf(),
        ensures
            r is Some <==> self.view_map().dom().contains(cf_name@),
            r is Some ==> r.unwrap().name_view() == cf_name@,
    {
        self.current.get_column_family(cf_name)
    }

    /// The value under `key` in the column family `cf` of the buffered
    /// state, copied out.
    pub fn get_cf(&self, cf: &ColumnFamily, key: &Vec<u8>) -> (r: Option<Vec<u8>>)
        requires
            self.wf(),
        ensures
            r is Some <==> self.view_map().dom().contains(cf.name_view())
                && self.view_map()[cf.name_view()].dom().contains(key@),
            r is Some ==> r.unwrap()@ == self.view_map()[cf.name_view()][key@],
    {
        self.current.get_cf(cf, key)
    }

    /// The value under `key` in the `default` column family of the buffered
    /// state, copied out.
    pub fn get(&self, key: &Vec<u8>) -> (r: Option<Vec<u8>>)
        requires
            self.wf(),
        ensures
            r is Some <==> self.view_map()[default_cf()].dom().contains(key@),
            r is Some ==> r.unwrap()@ == self.view_map()[default_cf()][key@],
    {
        self.current.get(key)
    }

    /// The value-or-absent for each distinct key of `keys` in the column
    /// family `cf` of the buffered state.
    pub fn multi_get_cf(&self, cf: &ColumnFamily, keys: &Vec<Vec<u8>>) -> (r: Vec<
        (Vec<u8>, Option<Vec<u8>>),
    >)
        requires
            self.wf(),
        ensures
            r.deep_view() == Seq::new(
                dedup_first(keys.deep_view()).len(),
                |i: int|
                    (
                        dedup_first(keys.deep_view())[i],
                        lookup_of(self.view_map(), cf.name_view(), dedup_first(keys.deep_view())[i]),
                    ),
            ),
    {
        self.current.multi_get_cf(cf, keys)
    }

    /// The value-or-absent for each distinct key of `keys` in the `default`
    /// column family of the buffered state.
    pub fn multi_get(&self, keys: &Vec<Vec<u8>>) -> (r: Vec<(Vec<u8>, Option<Vec<u8>>)>)
        requires
            self.wf(),
        ensures
            r.deep_view() == Seq::new(
                dedup_first(keys.deep_view()).len(),
                |i: int|
                    (
                        dedup_first(keys.deep_view())[i],
                        lookup_of(self.view_map(), default_cf(), dedup_first(keys.deep_view())[i]),
                    ),
            ),
    {
        self.current.multi_get(keys)
    }

    /// Whether the `default` column family of the buffered state holds no
    /// key.
    pub fn is_empty(&self) -> (r: bool)
        requires
            self.wf(),
        ensures
            r <==> self.view_map()[default_cf()] == Map::<Seq<u8>, Seq<u8>>::empty(),
    {
        self.current.is_empty()
    }

    /// Whether the column family `cf` of the buffered state holds no key;
    /// fails with `NotFound` when the handle matches no column family.
    pub fn is_empty_cf(&self, cf: &ColumnFamily) -> (r: Result<bool, StorageError>)
        requires
            self.wf(),
        ensures
            r is Ok <==> self.view_map().dom().contains(cf.name_view()),
            r is Err ==> r.unwrap_err() == StorageError::NotFound,
            r is Ok ==> (r.unwrap() <==> self.view_map()[cf.name_view()] == Map::<
                Seq<u8>,
                Seq<u8>,
            >::empty()),
    {
        self.current.is_empty_cf(cf)
    }

    /// All entries of the `default` column family of the buffered state in
    /// ascending key order.
    pub fn get_iter(&self) -> (r: Vec<(Vec<u8>, Vec<u8>)>)
        requires
            self.wf(),
        ensures
            cf_iter_post(self.view_map()[default_cf()], IterMode::Start, r.deep_view()),
    {
        self.current.iter_all()
    }

    /// All entries of the column family `cf` of the buffered state in
    /// ascending key order; fails with `NotFound` when the handle matches no
    /// column family.
    pub fn get_iter_cf(&self, cf: &ColumnFamily) -> (r: Result<
        Vec<(Vec<u8>, Vec<u8>)>,
        StorageError,
    >)
        requires
            self.wf(),
        ensures
            r is Ok <==> self.view_map().dom().contains(cf.name_view()),
            r is Err ==> r.unwrap_err() == StorageError::NotFound,
            r is Ok ==> cf_iter_post(
                self.view_map()[cf.name_view()],
                IterMode::Start,
                r.unwrap().deep_view(),
            ),
    {
        self.current.iter_cf_mode(cf, &IterMode::Start)
    }

    /// The entries an iterator over the column family `cf` of the buffered
    /// state yields in `mode`; fails with `NotFound` when the handle matches
    /// no column family.
    pub fn get_iter_cf_mode(&self, cf: &ColumnFamily, mode: &IterMode) -> (r: Result<
        Vec<(Vec<u8>, Vec<u8>)>,
        StorageError,
    >)
        requires
            self.wf(),
        ensures
            r is Ok <==> self.view_map().dom().contains(cf.name_view()),
            r is Err ==> r.unwrap_err() == StorageError::NotFound,
            r is Ok ==> cf_iter_post(
                self.view_map()[cf.name_view()],
                *mode,
                r.unwrap().deep_view(),
            ),
    {
        self.current.iter_cf_mode(cf, mode)
    }
}

/// The keys written by one update call read back as written: a put whose key
/// is put no later time afterwards and not deleted is what a read then
/// returns.
pub proof fn lemma_read_after_write(
    m: Map<Seq<u8>, Seq<u8>>,
    puts: Seq<(Seq<u8>, Seq<u8>)>,
    dels: Seq<Seq<u8>>,
    i: int,
)
    requires
        0 <= i < puts.len(),
        forall|j: int| i < j < puts.len() ==> (#[trigger] puts[j]).0 != puts[i].0,
        !dels.contains(puts[i].0),
    ensures
        apply_update(m, puts, dels).dom().contains(puts[i].0),
        apply_update(m, puts, dels)[puts[i].0] == puts[i].1,
{
    lemma_apply_puts_last(m, puts, i);
    lemma_apply_dels_other(apply_puts(m, puts), dels, puts[i].0);
}

/// A deleted key is absent after the update, whatever was put under it.
pub proof fn lemma_delete_wins(
    m: Map<Seq<u8>, Seq<u8>>,
    puts: Seq<(Seq<u8>, Seq<u8>)>,
    dels: Seq<Seq<u8>>,
    k: Seq<u8>,
)
    requires
        dels.contains(k),
    ensures
        !apply_update(m, puts, dels).dom().contains(k),
    decreases dels.len(),
{
    let t = dels.drop_last();
    assert(forall|j: int| 0 <= j < t.len() ==> t[j] == dels[j]);
    if dels.last() == k {
    } else {
        assert(t.contains(k)) by {
            let w = choose|w: int| 0 <= w < dels.len() && dels[w] == k;
            assert(t[w] == k);
        }
        lemma_delete_wins(m, puts, t, k);
    }
}

/// The last put of a key decides that key's value after the puts.
proof fn lemma_apply_puts_last(m: Map<Seq<u8>, Seq<u8>>, puts: Seq<(Seq<u8>, Seq<u8>)>, i: int)
    requires
        0 <= i < puts.len(),
        forall|j: int| i < j < puts.len() ==> (#[trigger] puts[j]).0 != puts[i].0,
    ensures
        apply_puts(m, puts).dom().contains(puts[i].0),
        apply_puts(m, puts)[puts[i].0] == puts[i].1,
    decreases puts.len(),
{
    let t = puts.drop_last();
    assert(forall|j: int| 0 <= j < t.len() ==> t[j] == puts[j]);
    if i == puts.len() - 1 {
    } else {
        lemma_apply_puts_last(m, t, i);
        assert(puts[puts.len() - 1].0 != puts[i].0);
    }
}

/// Deleting other keys leaves a key's presence and value alone.
proof fn lemma_apply_dels_other(m: Map<Seq<u8>, Seq<u8>>, dels: Seq<Seq<u8>>, k: Seq<u8>)
    requires
        !dels.contains(k),
    ensures
        apply_dels(m, dels).dom().contains(k) == m.dom().contains(k),
        m.dom().contains(k) ==> apply_dels(m, dels)[k] == m[k],
    decreases dels.len(),
{
    if dels.len() > 0 {
        let t = dels.drop_last();
        assert(forall|j: int| 0 <= j < t.len() ==> t[j] == dels[j]);
        assert(!t.contains(k)) by {
            if t.contains(k) {
                let w = choose|w: int| 0 <= w < t.len() && t[w] == k;
                assert(dels[w] == k);
            }
        }
        assert(dels.last() != k) by {
            if dels.last() == k {
                assert(dels[dels.len() - 1] == k);
            }
        }
        lemma_apply_dels_other(m, t, k);
    }
}

/// Savepoint rollback is last-in-first-out: after a savepoint at state `c0`,
/// any run of mutations, a second savepoint at state `c1` and further
/// mutations, the first rollback restores `c1` — the mutations before it —
/// and the next restores `c0`.
pub proof fn lemma_savepoints_lifo(
    saves: Seq<Map<Seq<char>, Map<Seq<u8>, Seq<u8>>>>,
    c0: Map<Seq<char>, Map<Seq<u8>, Seq<u8>>>,
    c1: Map<Seq<char>, Map<Seq<u8>, Seq<u8>>>,
)
    ensures
        saves.push(c0).push(c1).last() == c1,
        saves.push(c0).push(c1).drop_last() == saves.push(c0),
        saves.push(c0).last() == c0,
        saves.push(c0).drop_last() == saves,
{
    assert(saves.push(c0).push(c1).drop_last() =~= saves.push(c0));
    assert(saves.push(c0).drop_last() =~= saves);
}

} // verus!
