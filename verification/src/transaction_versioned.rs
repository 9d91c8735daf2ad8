//! A transaction on a versioned storage.  A live transaction reads and
//! buffers writes over the current state and may commit, which also creates
//! a version.  A snapshot transaction reads — and may mutate its own buffer
//! over — an opened past version, and can never commit: retained versions
//! are immutable, and its writes die with it.

use vstd::prelude::*;

use crate::store::{cf_iter_post, default_cf, dedup_first, lookup_of, ColumnFamily, KvStore};
use crate::storage_versioned::{committed_versions, spec_next_number, StorageVersioned};
use crate::transaction::{apply_update, Transaction};
use crate::iterator::IterMode;
use crate::versions::spec_valid_version_id;
use crate::StorageError;

verus! {

/// Which state the transaction is bound to: the live database, or an opened
/// past version.
#[derive(Clone, Copy, Debug, PartialEq, Eq, Structural)]
pub enum VersionedMode {
    /// Bound to the current state; committable.
    Live,
    /// Bound to an opened version; never committable.
    Snapshot,
}

/// A transaction on a versioned storage, live or on a snapshot.
#[derive(Debug)]
pub struct TransactionVersioned {
    tx: Transaction,
    mode: VersionedMode,
}

impl TransactionVersioned {
    /// The buffered state: what this transaction's reads observe.
    pub closed spec fn view_map(self) -> Map<Seq<char>, Map<Seq<u8>, Seq<u8>>> {
        self.tx.view_map()
    }

    /// The state the transaction began from.
    pub closed spec fn base_map(self) -> Map<Seq<char>, Map<Seq<u8>, Seq<u8>>> {
        self.tx.base_map()
    }

    /// The savepoint stack, oldest first.
    pub closed spec fn saves(self) -> Seq<Map<Seq<char>, Map<Seq<u8>, Seq<u8>>>> {
        self.tx.saves()
    }

    /// Whether the transaction has been committed.
    pub closed spec fn committed(self) -> bool {
        self.tx.committed()
    }

    /// Whether the transaction is bound to an opened version rather than to
    /// the live database.
    pub closed spec fn is_snapshot(self) -> bool {
        self.mode is Snapshot
    }

    /// The held states are well formed.
    pub closed spec fn wf(self) -> bool {
        self.tx.wf()
    }

    /// A committable transaction over the live database state.
    pub(crate) fn new_live(db: &KvStore) -> (r: TransactionVersioned)
        requires
            db.wf(),
        ensures
            r.wf(),
            r.view_map() == db.as_map(),
            r.base_map() == db.as_map(),
            r.saves() == Seq::<Map<Seq<char>, Map<Seq<u8>, Seq<u8>>>>::empty(),
            !r.committed(),
            !r.is_snapshot(),
    {
        TransactionVersioned { tx: Transaction::new(db), mode: VersionedMode::Live }
    }

    /// A never-committable transaction over an opened version's state.
    pub(crate) fn new_snapshot(data: &KvStore) -> (r: TransactionVersioned)
        requires
            data.wf(),
        ensures
            r.wf(),
            r.view_map() == data.as_map(),
            r.base_map() == data.as_map(),
            r.saves() == Seq::<Map<Seq<char>, Map<Seq<u8>, Seq<u8>>>>::empty(),
            !r.committed(),
            r.is_snapshot(),
    {
        TransactionVersioned { tx: Transaction::new(data), mode: VersionedMode::Snapshot }
    }

    /// Commits the buffered state to the storage's live database and — when
    /// versions are retained at all — creates a version under `version_id`,
    /// trimming retention.  Either everything applies, or nothing does: a
    /// snapshot transaction, a second commit, an invalid or already-used id
    /// and an exhausted version counter each fail with the state unchanged.
    pub fn commit(&mut self, storage: &mut StorageVersioned, version_id: &Vec<u8>) -> (r: Result<
        (),
        StorageError,
    >)
        requires
            old(self).wf(),
            old(storage).wf(),
        ensures
            final(self).wf(),
            final(storage).wf(),
            final(storage).retention() == old(storage).retention(),
            final(self).is_snapshot() == old(self).is_snapshot(),
            final(self).base_map() == old(self).base_map(),
            r is Ok <==> !old(self).is_snapshot() && !old(self).committed() && (old(
                storage,
            ).retention() == 0 || (spec_valid_version_id(version_id@) && !old(storage).has_version(
                version_id@,
            ) && spec_next_number(old(storage).versions_view()) <= u64::MAX)),
            r is Err ==> final(self).view_map() == old(self).view_map() && final(self).saves()
                == old(self).saves() && final(self).committed() == old(self).committed()
                && final(storage).view_map() == old(storage).view_map()
                && final(storage).versions_view() == old(storage).versions_view(),
            r is Err ==> r.unwrap_err() == (if old(self).is_snapshot() || old(self).committed() {
                StorageError::FailedPrecondition
            } else if !spec_valid_version_id(version_id@) {
                StorageError::InvalidArgument
            } else if old(storage).has_version(version_id@) {
                StorageError::AlreadyExists
            } else {
                StorageError::Corruption
            }),
            r is Ok ==> final(storage).view_map() == old(self).view_map() && final(self).committed()
                && final(self).view_map() == old(self).view_map() && final(self).saves() == Seq::<
                Map<Seq<char>, Map<Seq<u8>, Seq<u8>>>,
            >::empty(),
            r is Ok && old(storage).retention() == 0 ==> final(storage).versions_view() == old(
                storage,
            ).versions_view(),
            r is Ok && old(storage).retention() > 0 ==> final(storage).versions_view()
                == committed_versions(
                old(storage).versions_view(),
                version_id@,
                old(self).view_map(),
                old(storage).retention(),
            ),
    {
        if matches!(self.mode, VersionedMode::Snapshot) {
            return Err(StorageError::FailedPrecondition);
        }
        if self.is_committed() {
            return Err(StorageError::FailedPrecondition);
        }
        let state = self.tx.state();
        let res = storage.commit_current(&state, version_id);
        match res {
            Ok(()) => {
                self.tx.finalize();
                Ok(())
            },
            Err(e) => Err(e),
        }
    }

    /// Whether the transaction has already been committed.
    fn is_committed(&self) -> (r: bool)
        ensures
            r == self.committed(),
    {
        self.tx.is_finalized()
    }

    /// A handle for the named column family of the opened version.  On a
    /// live transaction this fails with `FailedPrecondition`: the storage's
    /// own column-family manager is the one to ask.
    pub fn get_column_family(&self, cf_name: &str) -> (r: Result<
        Option<ColumnFamily>,
        StorageError,
    >)
        requires
            self.wf(),
        ensures
            r is Ok <==> self.is_snapshot(),
            r is Err ==> r.unwrap_err() == StorageError::FailedPrecondition,
            r is Ok ==> (r.unwrap() is Some <==> self.view_map().dom().contains(cf_name@)),
            r is Ok && r.unwrap() is Some ==> r.unwrap().unwrap().name_view() == cf_name@,
    {
        match self.mode {
            VersionedMode::Live => Err(StorageError::FailedPrecondition),
            VersionedMode::Snapshot => Ok(self.tx.lookup_column_family(cf_name)),
        }
    }

    /// Applies `to_update` (puts, in order) then `to_delete` (deletes, in
    /// order) to the column family `cf` of the buffered state.
    pub fn update_cf(
        &mut self,
        cf: &ColumnFamily,
        to_update: &Vec<(Vec<u8>, Vec<u8>)>,
        to_delete: &Vec<Vec<u8>>,
    ) -> (r: Result<(), StorageError>)
        requires
            old(self).wf(),
        ensures
            final(self).wf(),
            final(self).base_map() == old(self).base_map(),
            final(self).saves() == old(self).saves(),
            final(self).committed() == old(self).committed(),
            final(self).is_snapshot() == old(self).is_snapshot(),
            r is Ok <==> !old(self).committed() && old(self).view_map().dom().contains(
                cf.name_view(),
            ),
            r is Err ==> final(self).view_map() == old(self).view_map() && r.unwrap_err() == (
            if old(self).committed() {
                StorageError::FailedPrecondition
            } else {
                StorageError::NotFound
            }),
            r is Ok ==> final(self).view_map() == old(self).view_map().insert(
                cf.name_view(),
                apply_update(
                    old(self).view_map()[cf.name_view()],
                    to_update.deep_view(),
                    to_delete.deep_view(),
                ),
            ),
    {
        self.tx.update_cf(cf, to_update, to_delete)
    }

    /// Applies `to_update` then `to_delete` to the `default` column family.
    pub fn update(
        &mut self,
        to_update: &Vec<(Vec<u8>, Vec<u8>)>,
        to_delete: &Vec<Vec<u8>>,
    ) -> (r: Result<(), StorageError>)
        requires
            old(self).wf(),
        ensures
            final(self).wf(),
            final(self).base_map() == old(self).base_map(),
            final(self).saves() == old(self).saves(),
            final(self).committed() == old(self).committed(),
            final(self).is_snapshot() == old(self).is_snapshot(),
            r is Ok <==> !old(self).committed(),
            r is Err ==> final(self).view_map() == old(self).view_map() && r.unwrap_err()
                == StorageError::FailedPrecondition,
            r is Ok ==> final(self).view_map() == old(self).view_map().insert(
                default_cf(),
                apply_update(
                    old(self).view_map()[default_cf()],
                    to_update.deep_view(),
                    to_delete.deep_view(),
                ),
            ),
    {
        self.tx.update(to_update, to_delete)
    }

    /// Pushes a savepoint holding the buffered state as it stands.
    pub fn save(&mut self) -> (r: Result<(), StorageError>)
        requires
            old(self).wf(),
        ensures
            r is Ok,
            final(self).wf(),
            final(self).view_map() == old(self).view_map(),
            final(self).base_map() == old(self).base_map(),
            final(self).committed() == old(self).committed(),
            final(self).is_snapshot() == old(self).is_snapshot(),
            final(self).saves() == old(self).saves().push(old(self).view_map()),
    {
        self.tx.save()
    }

    /// Pops the most recent savepoint and restores the buffered state to
    /// it; fails with `FailedPrecondition` on an empty stack or after
    /// commit.
    pub fn rollback_to_savepoint(&mut self) -> (r: Result<(), StorageError>)
        requires
            old(self).wf(),
        ensures
            final(self).wf(),
            final(self).base_map() == old(self).base_map(),
            final(self).committed() == old(self).committed(),
            final(self).is_snapshot() == old(self).is_snapshot(),
            r is Ok <==> !old(self).committed() && old(self).saves().len() > 0,
            r is Err ==> final(self).view_map() == old(self).view_map() && final(self).saves()
                == old(self).saves() && r.unwrap_err() == StorageError::FailedPrecondition,
            r is Ok ==> final(self).view_map() == old(self).saves().last() && final(self).saves()
                == old(self).saves().drop_last(),
    {
        self.tx.rollback_to_savepoint()
    }

    /// Discards all buffered writes, restoring the state the transaction
    /// began from; fails with `FailedPrecondition` after commit.
    pub fn rollback(&mut self) -> (r: Result<(), StorageError>)
        requires
            old(self).wf(),
        ensures
            final(self).wf(),
            final(self).base_map() == old(self).base_map(),
            final(self).committed() == old(self).committed(),
            final(self).is_snapshot() == old(self).is_snapshot(),
            r is Ok <==> !old(self).committed(),
            r is Err ==> final(self).view_map() == old(self).view_map() && final(self).saves()
                == old(self).saves() && r.unwrap_err() == StorageError::FailedPrecondition,
            r is Ok ==> final(self).view_map() == old(self).base_map() && final(self).saves()
                == Seq::<Map<Seq<char>, Map<Seq<u8>, Seq<u8>>>>::empty(),
    {
        self.tx.rollback()
    }

    /// The value under `key` in the column family `cf` of the buffered
    /// state, copied out.
    pub fn get_cf(&self, cf: &ColumnFamily, key: &Vec<u8>) -> (r: Option<Vec<u8>>)
        requires
            self.wf(),
        ensures
            r is Some <==> self.view_map().dom().contains(cf.name_view())
                && self.view_map()[cf.name_view()].dom().contains(key@),
            r is Some ==> r.unwrap()@ == self.view_map()[cf.name_view()][key@],
    {
        self.tx.get_cf(cf, key)
    }

    /// The value under `key` in the `default` column family of the buffered
    /// state, copied out.
    pub fn get(&self, key: &Vec<u8>) -> (r: Option<Vec<u8>>)
        requires
            self.wf(),
        ensures
            r is Some <==> self.view_map()[default_cf()].dom().contains(key@),
            r is Some ==> r.unwrap()@ == self.view_map()[default_cf()][key@],
    {
        self.tx.get(key)
    }

    /// The value-or-absent for each distinct key of `keys` in the column
    /// family `cf` of the buffered state.
    pub fn multi_get_cf(&self, cf: &ColumnFamily, keys: &Vec<Vec<u8>>) -> (r: Vec<
        (Vec<u8>, Option<Vec<u8>>),
    >)
        requires
            self.wf(),
        ensures
            r.deep_view() == Seq::new(
                dedup_first(keys.deep_view()).len(),
                |i: int|
                    (
                        dedup_first(keys.deep_view())[i],
                        lookup_of(self.view_map(), cf.name_view(), dedup_first(keys.deep_view())[i]),
                    ),
            ),
    {
        self.tx.multi_get_cf(cf, keys)
    }

    /// The value-or-absent for each distinct key of `keys` in the `default`
    /// column family of the buffered state.
    pub fn multi_get(&self, keys: &Vec<Vec<u8>>) -> (r: Vec<(Vec<u8>, Option<Vec<u8>>)>)
        requires
            self.wf(),
        ensures
            r.deep_view() == Seq::new(
                dedup_first(keys.deep_view()).len(),
                |i: int|
                    (
                        dedup_first(keys.deep_view())[i],
                        lookup_of(self.view_map(), default_cf(), dedup_first(keys.deep_view())[i]),
                    ),
            ),
    {
        self.tx.multi_get(keys)
    }

    /// Whether the `default` column family of the buffered state holds no
    /// key.
    pub fn is_empty(&self) -> (r: bool)
        requires
            self.wf(),
        ensures
            r <==> self.view_map()[default_cf()] == Map::<Seq<u8>, Seq<u8>>::empty(),
    {
        self.tx.is_empty()
    }

    /// Whether the column family `cf` of the buffered state holds no key;
    /// fails with `NotFound` when the handle matches no column family.
    pub fn is_empty_cf(&self, cf: &ColumnFamily) -> (r: Result<bool, StorageError>)
        requires
            self.wf(),
        ensures
            r is Ok <==> self.view_map().dom().contains(cf.name_view()),
            r is Err ==> r.unwrap_err() == StorageError::NotFound,
            r is Ok ==> (r.unwrap() <==> self.view_map()[cf.name_view()] == Map::<
                Seq<u8>,
                Seq<u8>,
            >::empty()),
    {
        self.tx.is_empty_cf(cf)
    }

    /// All entries of the `default` column family of the buffered state in
    /// ascending key order.
    pub fn get_iter(&self) -> (r: Vec<(Vec<u8>, Vec<u8>)>)
        requires
            self.wf(),
        ensures
            cf_iter_post(self.view_map()[default_cf()], IterMode::Start, r.deep_view()),
    {
        self.tx.get_iter()
    }

    /// All entries of the column family `cf` of the buffered state in
    /// ascending key order; fails with `NotFound` when the handle matches
    /// no column family.
    pub fn get_iter_cf(&self, cf: &ColumnFamily) -> (r: Result<
        Vec<(Vec<u8>, Vec<u8>)>,
        StorageError,
    >)
        requires
            self.wf(),
        ensures
            r is Ok <==> self.view_map().dom().contains(cf.name_view()),
            r is Err ==> r.unwrap_err() == StorageError::NotFound,
            r is Ok ==> cf_iter_post(
                self.view_map()[cf.name_view()],
                IterMode::Start,
                r.unwrap().deep_view(),
            ),
    {
        self.tx.get_iter_cf(cf)
    }

    /// The entries an iterator over the column family `cf` of the buffered
    /// state yields in `mode`; fails with `NotFound` when the handle
    /// matches no column family.
    pub fn get_iter_cf_mode(&self, cf: &ColumnFamily, mode: &IterMode) -> (r: Result<
        Vec<(Vec<u8>, Vec<u8>)>,
        StorageError,
    >)
        requires
            self.wf(),
        ensures
            r is Ok <==> self.view_map().dom().contains(cf.name_view()),
            r is Err ==> r.unwrap_err() == StorageError::NotFound,
            r is Ok ==> cf_iter_post(
                self.view_map()[cf.name_view()],
                *mode,
                r.unwrap().deep_view(),
            ),
    {
        self.tx.get_iter_cf_mode(cf, mode)
    }
}

} // verus!
