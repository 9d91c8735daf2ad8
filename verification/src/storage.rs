//! Plain storage: one live database under the caller's chosen base path.
//! The host opens or creates the on-disk state and hands it in; every
//! decision about it is made and checked here.

use vstd::prelude::*;

use crate::store::{cf_iter_post, default_cf, dedup_first, lookup_of, ColumnFamily, KvStore};
use crate::transaction::Transaction;
use crate::iterator::IterMode;
use crate::StorageError;

verus! {

/// A storage holding one live database.
#[derive(Debug)]
pub struct Storage {
    db: KvStore,
}

impl Storage {
    /// The live database as a mapping from column-family names to contents.
    pub closed spec fn view_map(self) -> Map<Seq<char>, Map<Seq<u8>, Seq<u8>>> {
        self.db.as_map()
    }

    /// The live database is well formed.
    pub closed spec fn wf(self) -> bool {
        self.db.wf()
    }

    /// Opens a storage over the database the host found on disk, or over a
    /// fresh one.  With nothing on disk and `create_if_missing` false the
    /// open is refused; a fresh database holds only the empty `default`
    /// column family.
    pub fn open(existing: Option<KvStore>, create_if_missing: bool) -> (r: Result<
        Storage,
        StorageError,
    >)
        requires
            existing matches Some(db) ==> db.wf(),
        ensures
            r is Ok <==> existing is Some || create_if_missing,
            r is Err ==> r.unwrap_err() == StorageError::NotFound,
            r is Ok ==> r.unwrap().wf(),
            existing matches Some(db) ==> r is Ok && r.unwrap().view_map() == db.as_map(),
            existing is None && create_if_missing ==> r is Ok && r.unwrap().view_map() == Map::<
                Seq<char>,
                Map<Seq<u8>, Seq<u8>>,
            >::empty().insert(default_cf(), Map::<Seq<u8>, Seq<u8>>::empty()),
    {
        match existing {
            Some(db) => Ok(Storage { db }),
            None => {
                if create_if_missing {
                    Ok(Storage { db: KvStore::new() })
                } else {
                    Err(StorageError::NotFound)
                }
            },
        }
    }

    /// Begins a transaction reading from the live database.
    pub fn create_transaction(&self) -> (r: Result<Transaction, StorageError>)
        requires
            self.wf(),
        ensures
            r is Ok,
            r.unwrap().wf(),
            r.unwrap().view_map() == self.view_map(),
            r.unwrap().base_map() == self.view_map(),
            r.unwrap().saves() == Seq::<Map<Seq<char>, Map<Seq<u8>, Seq<u8>>>>::empty(),
            !r.unwrap().committed(),
    {
        Ok(Transaction::new(&self.db))
    }

    /// Replaces the live database with a committed transaction's state.
    pub(crate) fn install(&mut self, db: KvStore)
        requires
            db.wf(),
        ensures
            final(self).wf(),
            final(self).view_map() == db.as_map(),
    {
        self.db = db;
    }

    /// A handle for the named column family of the live database, or `None`
    /// when no column family bears that name.
    pub fn get_column_family(&self, cf_name: &str) -> (r: Option<ColumnFamily>)
        requires
            self.wf(),
        ensures
            r is Some <==> self.view_map().dom().contains(cf_name@),
            r is Some ==> r.unwrap().name_view() == cf_name@,
    {
        self.db.get_column_family(cf_name)
    }

    /// Creates the named column family on the live database; a name that
    /// already exists is left as it is, and success is reported either way.
    pub fn set_column_family(&mut self, cf_name: &str) -> (r: Result<(), StorageError>)
        requires
            old(self).wf(),
        ensures
            r is Ok,
            final(self).wf(),
            final(self).view_map() == if old(self).view_map().dom().contains(cf_name@) {
                old(self).view_map()
            } else {
                old(self).view_map().insert(cf_name@, Map::<Seq<u8>, Seq<u8>>::empty())
            },
    {
        self.db.set_column_family(cf_name)
    }

    /// The value under `key` in the column family `cf`, copied out.
    pub fn get_cf(&self, cf: &ColumnFamily, key: &Vec<u8>) -> (r: Option<Vec<u8>>)
        requires
            self.wf(),
        ensures
            r is Some <==> self.view_map().dom().contains(cf.name_view())
                && self.view_map()[cf.name_view()].dom().contains(key@),
            r is Some ==> r.unwrap()@ == self.view_map()[cf.name_view()][key@],
    {
        self.db.get_cf(cf, key)
    }

    /// The value under `key` in the `default` column family, copied out.
    pub fn get(&self, key: &Vec<u8>) -> (r: Option<Vec<u8>>)
        requires
            self.wf(),
        ensures
            r is Some <==> self.view_map()[default_cf()].dom().contains(key@),
            r is Some ==> r.unwrap()@ == self.view_map()[default_cf()][key@],
    {
        self.db.get(key)
    }

    /// The value-or-absent for each distinct key of `keys` in the column
    /// family `cf`.
    pub fn multi_get_cf(&self, cf: &ColumnFamily, keys: &Vec<Vec<u8>>) -> (r: Vec<
        (Vec<u8>, Option<Vec<u8>>),
    >)
        requires
            self.wf(),
        ensures
            r.deep_view() == Seq::new(
                dedup_first(keys.deep_view()).len(),
                |i: int|
                    (
                        dedup_first(keys.deep_view())[i],
                        lookup_of(self.view_map(), cf.name_view(), dedup_first(keys.deep_view())[i]),
                    ),
            ),
    {
        self.db.multi_get_cf(cf, keys)
    }

    /// The value-or-absent for each distinct key of `keys` in the `default`
    /// column family.
    pub fn multi_get(&self, keys: &Vec<Vec<u8>>) -> (r: Vec<(Vec<u8>, Option<Vec<u8>>)>)
        requires
            self.wf(),
        ensures
            r.deep_view() == Seq::new(
                dedup_first(keys.deep_view()).len(),
                |i: int|
                    (
                        dedup_first(keys.deep_view())[i],
                        lookup_of(self.view_map(), default_cf(), dedup_first(keys.deep_view())[i]),
                    ),
            ),
    {
        self.db.multi_get(keys)
    }

    /// Whether the `default` column family holds no key.
    pub fn is_empty(&self) -> (r: bool)
        requires
            self.wf(),
        ensures
            r <==> self.view_map()[default_cf()] == Map::<Seq<u8>, Seq<u8>>::empty(),
    {
        self.db.is_empty()
    }

    /// Whether the column family `cf` holds no key; fails with `NotFound`
    /// when the handle matches no column family.
    pub fn is_empty_cf(&self, cf: &ColumnFamily) -> (r: Result<bool, StorageError>)
        requires
            self.wf(),
        ensures
            r is Ok <==> self.view_map().dom().contains(cf.name_view()),
            r is Err ==> r.unwrap_err() == StorageError::NotFound,
            r is Ok ==> (r.unwrap() <==> self.view_map()[cf.name_view()] == Map::<
                Seq<u8>,
                Seq<u8>,
            >::empty()),
    {
        self.db.is_empty_cf(cf)
    }

    /// All entries of the `default` column family in ascending key order.
    pub fn get_iter(&self) -> (r: Vec<(Vec<u8>, Vec<u8>)>)
        requires
            self.wf(),
        ensures
            cf_iter_post(self.view_map()[default_cf()], IterMode::Start, r.deep_view()),
    {
        self.db.iter_all()
    }

    /// All entries of the column family `cf` in ascending key order; fails
    /// with `NotFound` when the handle matches no column family.
    pub fn get_iter_cf(&self, cf: &ColumnFamily) -> (r: Result<
        Vec<(Vec<u8>, Vec<u8>)>,
        StorageError,
    >)
        requires
            self.wf(),
        ensures
            r is Ok <==> self.view_map().dom().contains(cf.name_view()),
            r is Err ==> r.unwrap_err() == StorageError::NotFound,
            r is Ok ==> cf_iter_post(
                self.view_map()[cf.name_view()],
                IterMode::Start,
                r.unwrap().deep_view(),
            ),
    {
        self.db.iter_cf_mode(cf, &IterMode::Start)
    }

    /// The entries an iterator over the column family `cf` yields in `mode`;
    /// fails with `NotFound` when the handle matches no column family.
    pub fn get_iter_cf_mode(&self, cf: &ColumnFamily, mode: &IterMode) -> (r: Result<
        Vec<(Vec<u8>, Vec<u8>)>,
        StorageError,
    >)
        requires
            self.wf(),
        ensures
            r is Ok <==> self.view_map().dom().contains(cf.name_view()),
            r is Err ==> r.unwrap_err() == StorageError::NotFound,
            r is Ok ==> cf_iter_post(
                self.view_map()[cf.name_view()],
                *mode,
                r.unwrap().deep_view(),
            ),
    {
        self.db.iter_cf_mode(cf, mode)
    }
}

} // verus!
